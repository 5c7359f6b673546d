use vstd::prelude::*;
use vstd::string::StringExecFns;

verus! {

/// The archive-relative path of `name` inside the directory `prefix`;
/// the empty prefix is the archive's root.
pub open spec fn rel_join(prefix: Seq<char>, name: Seq<char>) -> Seq<char> {
    if prefix.len() == 0 {
        name
    } else {
        prefix + seq!['/'] + name
    }
}

/// The entry name under which a directory at `rel` is recorded.
pub open spec fn marker_of(rel: Seq<char>) -> Seq<char> {
    rel + seq!['/']
}

/// Where an extraction writes: the explicit destination, or else the
/// working directory.
pub open spec fn destination_of(explicit: Option<Seq<char>>, cwd: Seq<char>) -> Seq<char> {
    match explicit {
        Some(d) => d,
        None => cwd,
    }
}

/// A single path component: non-empty and free of `/`.
pub open spec fn is_plain_name(n: Seq<char>) -> bool {
    n.len() > 0 && forall|i: int| 0 <= i < n.len() ==> n[i] != '/'
}

proof fn lemma_slash_in_join(p: Seq<char>, n: Seq<char>)
    requires
        p.len() > 0,
    ensures
        rel_join(p, n)[p.len() as int] == '/',
        rel_join(p, n).len() == p.len() + 1 + n.len(),
        rel_join(p, n).take(p.len() as int) == p,
        rel_join(p, n).skip(p.len() as int + 1) == n,
        forall|i: int| 0 <= i < n.len() ==> rel_join(p, n)[p.len() + 1 + i] == n[i],
{
    let s = rel_join(p, n);
    assert(s.take(p.len() as int) =~= p);
    assert(s.skip(p.len() as int + 1) =~= n);
}

/// The path mapping is lossless: an archive-relative path determines the
/// directory and the name it was joined from.
pub proof fn lemma_rel_join_injective(p1: Seq<char>, n1: Seq<char>, p2: Seq<char>, n2: Seq<char>)
    requires
        is_plain_name(n1),
        is_plain_name(n2),
        rel_join(p1, n1) == rel_join(p2, n2),
    ensures
        p1 == p2,
        n1 == n2,
{
    let s = rel_join(p1, n1);
    if p1.len() > 0 {
        lemma_slash_in_join(p1, n1);
    }
    if p2.len() > 0 {
        lemma_slash_in_join(p2, n2);
    }
    if p1.len() == 0 && p2.len() > 0 {
        assert(n1[p2.len() as int] == '/');
    } else if p2.len() == 0 && p1.len() > 0 {
        assert(n2[p1.len() as int] == '/');
    } else if p1.len() > 0 && p2.len() > 0 {
        if p1.len() < p2.len() {
            let k = p2.len() - p1.len() - 1;
            assert(s[p1.len() + 1 + k] == n1[k]);
            assert(n1[k] == '/');
        } else if p2.len() < p1.len() {
            let k = p1.len() - p2.len() - 1;
            assert(s[p2.len() + 1 + k] == n2[k]);
            assert(n2[k] == '/');
        }
    }
}

/// A joined path ends as its name does.
pub proof fn lemma_join_last(prefix: Seq<char>, name: Seq<char>)
    requires
        name.len() > 0,
    ensures
        rel_join(prefix, name).len() >= name.len(),
        rel_join(prefix, name).last() == name.last(),
{
    if prefix.len() > 0 {
        lemma_slash_in_join(prefix, name);
        assert(rel_join(prefix, name)[prefix.len() + 1 + (name.len() - 1)] == name[name.len() - 1]);
    }
}

/// `path` lies beneath the directory at `dir`: it starts with its marker.
pub open spec fn beneath(dir: Seq<char>, path: Seq<char>) -> bool {
    marker_of(dir).len() <= path.len() && path.take(marker_of(dir).len() as int) == marker_of(dir)
}

/// What lies beneath a directory and is joined from a plain name lies
/// beneath it through the name's own directory, or is in it directly.
pub proof fn lemma_beneath_join(dir: Seq<char>, prefix: Seq<char>, name: Seq<char>)
    requires
        is_plain_name(name),
        beneath(dir, rel_join(prefix, name)),
    ensures
        prefix.len() > 0,
        dir == prefix || beneath(dir, prefix),
{
    let s = rel_join(prefix, name);
    let d = dir.len() as int;
    assert(s.take(d + 1)[d] == '/');
    if prefix.len() == 0 {
        assert(name[d] == '/');
    } else {
        lemma_slash_in_join(prefix, name);
        if d > prefix.len() {
            let k = d - prefix.len() - 1;
            assert(s[prefix.len() + 1 + k] == name[k]);
        } else if d == prefix.len() {
            assert(dir =~= s.take(d));
            assert(s.take(d) =~= prefix);
        } else {
            assert forall|x: int| 0 <= x < d + 1 implies prefix.take(d + 1)[x] == marker_of(dir)[x] by {
                assert(s[x] == prefix[x]);
                assert(s.take(d + 1)[x] == marker_of(dir)[x]);
            }
            assert(prefix.take(d + 1) =~= marker_of(dir));
        }
    }
}

/// Joins an archive-relative directory path and an entry name with `/`.
pub fn join_rel(prefix: &str, name: &str) -> (r: String)
    ensures
        r@ == rel_join(prefix@, name@),
{
    if prefix.is_empty() {
        String::from_str(name)
    } else {
        let mut r = String::from_str(prefix);
        r.append("/");
        r.append(name);
        proof {
            reveal_strlit("/");
        }
        r
    }
}

/// The name of the directory marker entry for the directory at `rel`.
pub fn directory_marker(rel: &str) -> (r: String)
    ensures
        r@ == marker_of(rel@),
{
    let mut r = String::from_str(rel);
    r.append("/");
    proof {
        reveal_strlit("/");
    }
    r
}

/// Picks the directory an archive is extracted into.
pub fn resolve_destination(explicit: Option<String>, cwd: String) -> (r: String)
    ensures
        r@ == destination_of(
            match explicit {
                Some(d) => Some(d@),
                None => None,
            },
            cwd@,
        ),
{
    match explicit {
        Some(d) => d,
        None => cwd,
    }
}

} // verus!
