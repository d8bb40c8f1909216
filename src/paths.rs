use vstd::prelude::*;
use crate::archive::{has_path, paths_unique, FileEntry};

verus! {

/// Lexicographic order on character sequences, by code point; a proper
/// prefix comes first. This is the order of Rust's `str` comparison.
pub open spec fn path_less(a: Seq<char>, b: Seq<char>) -> bool
    decreases a.len(),
{
    if a.len() == 0 {
        b.len() > 0
    } else if b.len() == 0 {
        false
    } else if a[0] != b[0] {
        (a[0] as int) < (b[0] as int)
    } else {
        path_less(a.drop_first(), b.drop_first())
    }
}

pub proof fn lemma_less_irreflexive(a: Seq<char>)
    ensures
        !path_less(a, a),
    decreases a.len(),
{
    if a.len() > 0 {
        lemma_less_irreflexive(a.drop_first());
    }
}

proof fn lemma_less_transitive(a: Seq<char>, b: Seq<char>, c: Seq<char>)
    requires
        path_less(a, b),
        path_less(b, c),
    ensures
        path_less(a, c),
    decreases a.len(),
{
    if a.len() > 0 && b.len() > 0 && c.len() > 0 && a[0] == b[0] && b[0] == c[0] {
        lemma_less_transitive(a.drop_first(), b.drop_first(), c.drop_first());
    }
}

proof fn lemma_less_total(a: Seq<char>, b: Seq<char>)
    requires
        a != b,
    ensures
        path_less(a, b) || path_less(b, a),
    decreases a.len(),
{
    if a.len() > 0 && b.len() > 0 && a[0] == b[0] {
        if a.drop_first() == b.drop_first() {
            assert(a =~= seq![a[0]] + a.drop_first());
            assert(b =~= seq![b[0]] + b.drop_first());
        }
        lemma_less_total(a.drop_first(), b.drop_first());
    } else if a.len() == 0 && b.len() == 0 {
        assert(a =~= b);
    } else if a.len() > 0 && b.len() > 0 {
        let x = a[0] as int;
        let y = b[0] as int;
        assert(x != y) by {
            if x == y {
                assert(a[0] == b[0]);
            }
        }
    }
}

/// Compares two strings under `path_less`.
fn str_less(a: &str, b: &str) -> (r: bool)
    ensures
        r == path_less(a@, b@),
{
    let la = a.unicode_len();
    let lb = b.unicode_len();
    let mut i: usize = 0;
    assert(a@.skip(0) =~= a@);
    assert(b@.skip(0) =~= b@);
    while i < la && i < lb
        invariant
            la == a@.len(),
            lb == b@.len(),
            i <= la,
            i <= lb,
            path_less(a@.skip(i as int), b@.skip(i as int)) == path_less(a@, b@),
        decreases la - i,
    {
        let x = a.get_char(i);
        let y = b.get_char(i);
        if x != y {
            return (x as u32) < (y as u32);
        }
        assert(a@.skip(i as int).drop_first() =~= a@.skip(i + 1));
        assert(b@.skip(i as int).drop_first() =~= b@.skip(i + 1));
        i = i + 1;
    }
    i < lb
}

pub open spec fn strictly_ascending(s: Seq<Seq<char>>) -> bool {
    forall|i: int, j: int| 0 <= i < j < s.len() ==> path_less(#[trigger] s[i], #[trigger] s[j])
}

pub open spec fn string_views(v: Seq<String>) -> Seq<Seq<char>> {
    v.map_values(|s: String| s@)
}

proof fn lemma_insert_ascending(s: Seq<Seq<char>>, k: int, x: Seq<char>)
    requires
        strictly_ascending(s),
        0 <= k <= s.len(),
        !s.contains(x),
        forall|i: int| 0 <= i < k ==> !path_less(x, #[trigger] s[i]),
        k < s.len() ==> path_less(x, s[k]),
    ensures
        strictly_ascending(s.insert(k, x)),
        forall|y: Seq<char>| s.insert(k, x).contains(y) <==> (s.contains(y) || y == x),
{
    let t = s.insert(k, x);
    assert forall|i: int| 0 <= i < k implies path_less(#[trigger] s[i], x) by {
        assert(s[i] != x);
        lemma_less_total(s[i], x);
    }
    assert forall|i: int| k <= i < s.len() implies path_less(x, #[trigger] s[i]) by {
        if i > k {
            lemma_less_transitive(x, s[k], s[i]);
        }
    }
    assert forall|i: int, j: int| 0 <= i < j < t.len() implies path_less(#[trigger] t[i], #[trigger] t[j]) by {
        if i < k && j > k {
            lemma_less_transitive(t[i], x, t[j]);
        }
    }
    assert forall|y: Seq<char>| t.contains(y) <==> (s.contains(y) || y == x) by {
        if t.contains(y) {
            let i = choose|i: int| 0 <= i < t.len() && t[i] == y;
            if i < k {
                assert(s[i] == y);
            } else if i > k {
                assert(s[i - 1] == y);
            }
        }
        if s.contains(y) {
            let i = choose|i: int| 0 <= i < s.len() && s[i] == y;
            if i < k {
                assert(t[i] == y);
            } else {
                assert(t[i + 1] == y);
            }
        }
        if y == x {
            assert(t[k] == y);
        }
    }
}

/// The paths of `entries` in ascending order.
pub fn sorted_paths(entries: &Vec<FileEntry>) -> (r: Vec<String>)
    requires
        paths_unique(entries@),
    ensures
        forall|i: int| 0 <= i < r@.len() ==> has_path(entries@, #[trigger] r@[i]@),
        forall|p: Seq<char>| #[trigger] has_path(entries@, p) ==> exists|i: int| 0 <= i < r@.len() && r@[i]@ == p,
        forall|i: int, j: int| 0 <= i < j < r@.len() ==> path_less(#[trigger] r@[i]@, #[trigger] r@[j]@),
{
    let mut out: Vec<String> = Vec::new();
    let mut n: usize = 0;
    assert(string_views(out@) =~= Seq::empty());
    while n < entries.len()
        invariant
            n <= entries@.len(),
            paths_unique(entries@),
            strictly_ascending(string_views(out@)),
            forall|y: Seq<char>|
                string_views(out@).contains(y) <==> exists|m: int| 0 <= m < n && #[trigger] entries@[m].path@ == y,
        decreases entries@.len() - n,
    {
        let x = entries[n].path.clone();
        let ghost sv = string_views(out@);
        let mut k: usize = 0;
        while k < out.len() && !str_less(x.as_str(), out[k].as_str())
            invariant
                k <= out@.len(),
                sv == string_views(out@),
                forall|i: int| 0 <= i < k ==> !path_less(x@, #[trigger] sv[i]),
            decreases out@.len() - k,
        {
            k = k + 1;
        }
        proof {
            if sv.contains(x@) {
                let m = choose|m: int| 0 <= m < n && #[trigger] entries@[m].path@ == x@;
                assert(entries@[m].path@ != entries@[n as int].path@);
            }
            lemma_insert_ascending(sv, k as int, x@);
        }
        out.insert(k, x);
        assert(string_views(out@) =~= sv.insert(k as int, x@));
        proof {
            assert forall|y: Seq<char>|
                string_views(out@).contains(y) <==> exists|m: int| 0 <= m < n + 1 && #[trigger] entries@[m].path@ == y by {
                if y == x@ {
                    assert(entries@[n as int].path@ == y);
                }
                if sv.contains(y) {
                    let m = choose|m: int| 0 <= m < n && #[trigger] entries@[m].path@ == y;
                    assert(0 <= m < n + 1 && entries@[m].path@ == y);
                }
                if exists|m: int| 0 <= m < n + 1 && #[trigger] entries@[m].path@ == y {
                    let m = choose|m: int| 0 <= m < n + 1 && #[trigger] entries@[m].path@ == y;
                    if m < n {
                        assert(sv.contains(y));
                    }
                }
            }
        }
        n = n + 1;
    }
    proof {
        let v = string_views(out@);
        assert forall|i: int| 0 <= i < out@.len() implies has_path(entries@, #[trigger] out@[i]@) by {
            assert(v[i] == out@[i]@);
            assert(v.contains(out@[i]@));
        }
        assert forall|p: Seq<char>| #[trigger] has_path(entries@, p) implies exists|i: int| 0 <= i < out@.len() && out@[i]@ == p by {
            let m = choose|m: int| 0 <= m < entries@.len() && #[trigger] entries@[m].path@ == p;
            assert(v.contains(p));
            let i = choose|i: int| 0 <= i < v.len() && v[i] == p;
            assert(out@[i]@ == p);
        }
        assert forall|i: int, j: int| 0 <= i < j < out@.len() implies path_less(#[trigger] out@[i]@, #[trigger] out@[j]@) by {
            assert(v[i] == out@[i]@ && v[j] == out@[j]@);
        }
    }
    out
}

} // verus!
