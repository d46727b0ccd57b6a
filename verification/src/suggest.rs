//! "Did you mean" notes: edit distance, and the closest candidate within a
//! budget.
use vstd::prelude::*;
use vstd::string::*;

verus! {

pub open spec fn min3(x: nat, y: nat, z: nat) -> nat {
    let m = if x <= y {
        x
    } else {
        y
    };
    if m <= z {
        m
    } else {
        z
    }
}

/// Levenshtein distance: the fewest single-character insertions, deletions and
/// substitutions that turn `a` into `b`.
pub open spec fn lev(a: Seq<char>, b: Seq<char>) -> nat
    decreases a.len() + b.len(),
{
    if a.len() == 0 {
        b.len()
    } else if b.len() == 0 {
        a.len()
    } else {
        min3(
            lev(a.drop_last(), b.drop_last()) + if a.last() == b.last() {
                0nat
            } else {
                1nat
            },
            lev(a.drop_last(), b) + 1,
            lev(a, b.drop_last()) + 1,
        )
    }
}

proof fn lemma_lev_bound(a: Seq<char>, b: Seq<char>)
    ensures
        lev(a, b) <= a.len() + b.len(),
    decreases a.len() + b.len(),
{
    if a.len() > 0 && b.len() > 0 {
        lemma_lev_bound(a.drop_last(), b);
    }
}

/// A string is at distance zero from itself.
pub proof fn lemma_lev_self(a: Seq<char>)
    ensures
        lev(a, a) == 0,
    decreases a.len(),
{
    if a.len() > 0 {
        lemma_lev_self(a.drop_last());
    }
}

/// The distance from a string to the empty one, either way round, is its
/// length.
pub proof fn lemma_lev_empty(a: Seq<char>)
    ensures
        lev(a, Seq::empty()) == a.len(),
        lev(Seq::empty(), a) == a.len(),
{
}

/// Edit distance does not depend on which string comes first.
pub proof fn lemma_lev_symmetric(a: Seq<char>, b: Seq<char>)
    ensures
        lev(a, b) == lev(b, a),
    decreases a.len() + b.len(),
{
    if a.len() > 0 && b.len() > 0 {
        lemma_lev_symmetric(a.drop_last(), b.drop_last());
        lemma_lev_symmetric(a.drop_last(), b);
        lemma_lev_symmetric(a, b.drop_last());
    }
}

/// The characters of a string, as a vector.
fn chars_of(s: &str) -> (v: Vec<char>)
    ensures
        v@ == s@,
{
    let n = s.unicode_len();
    let mut v: Vec<char> = Vec::new();
    let mut i: usize = 0;
    while i < n
        invariant
            n == s@.len(),
            i <= n,
            v@ == s@.subrange(0, i as int),
        decreases n - i,
    {
        v.push(s.get_char(i));
        i += 1;
        assert(v@ =~= s@.subrange(0, i as int));
    }
    assert(s@.subrange(0, n as int) =~= s@);
    v
}

/// Levenshtein distance, two rows rather than a full matrix. Exact whenever the
/// two lengths together fit a `usize`, which is every pair of strings that fits
/// in memory.
pub fn edit_distance(a: &str, b: &str) -> (d: usize)
    ensures
        a@.len() + b@.len() < usize::MAX ==> d == lev(a@, b@),
        a@.len() + b@.len() < usize::MAX ==> d == lev(b@, a@),
        a@.len() + b@.len() < usize::MAX && a@ == b@ ==> d == 0,
        a@.len() + b@.len() < usize::MAX && b@.len() == 0 ==> d == a@.len(),
        a@.len() + b@.len() < usize::MAX && a@.len() == 0 ==> d == b@.len(),
{
    proof {
        lemma_lev_self(a@);
        lemma_lev_symmetric(a@, b@);
        lemma_lev_empty(a@);
        lemma_lev_empty(b@);
        if b@.len() == 0 {
            assert(b@ =~= Seq::<char>::empty());
        }
        if a@.len() == 0 {
            assert(a@ =~= Seq::<char>::empty());
        }
    }
    let a = chars_of(a);
    let b = chars_of(b);
    let ghost sa = a@;
    let ghost sb = b@;
    let n = b.len();
    if a.len() >= usize::MAX - n {
        return 0;
    }
    // prev[j] is the distance from a[..i] to b[..j].
    let mut prev: Vec<usize> = Vec::new();
    let mut j: usize = 0;
    while j <= n
        invariant
            n == sb.len(),
            n < usize::MAX,
            j <= n + 1,
            prev@.len() == j,
            forall|k: int| 0 <= k < j ==> prev@[k] == lev(Seq::<char>::empty(), sb.subrange(0, k)),
        decreases n + 1 - j,
    {
        proof {
            assert(lev(Seq::<char>::empty(), sb.subrange(0, j as int)) == j);
        }
        prev.push(j);
        j += 1;
    }
    let mut i: usize = 0;
    while i < a.len()
        invariant
            a@ == sa,
            b@ == sb,
            n == sb.len(),
            sa.len() + sb.len() < usize::MAX,
            i <= sa.len(),
            prev@.len() == n + 1,
            forall|k: int|
                0 <= k <= n ==> prev@[k] == lev(sa.subrange(0, i as int), sb.subrange(0, k)),
        decreases sa.len() - i,
    {
        let ghost ai = sa.subrange(0, i as int);
        let ghost ai1 = sa.subrange(0, i + 1);
        assert(ai1.drop_last() =~= ai);
        let mut cur: Vec<usize> = Vec::new();
        proof {
            assert(lev(ai1, sb.subrange(0, 0)) == i + 1);
        }
        cur.push(i + 1);
        let mut k: usize = 0;
        while k < n
            invariant
                a@ == sa,
                b@ == sb,
                n == sb.len(),
                sa.len() + sb.len() < usize::MAX,
                i < sa.len(),
                ai == sa.subrange(0, i as int),
                ai1 == sa.subrange(0, i + 1),
                ai1.drop_last() == ai,
                prev@.len() == n + 1,
                forall|m: int| 0 <= m <= n ==> prev@[m] == lev(ai, sb.subrange(0, m)),
                k <= n,
                cur@.len() == k + 1,
                forall|m: int| 0 <= m <= k ==> cur@[m] == lev(ai1, sb.subrange(0, m)),
            decreases n - k,
        {
            let ghost bk1 = sb.subrange(0, k + 1);
            assert(bk1.drop_last() =~= sb.subrange(0, k as int));
            proof {
                lemma_lev_bound(ai, sb.subrange(0, k as int));
                lemma_lev_bound(ai, bk1);
                lemma_lev_bound(ai1, sb.subrange(0, k as int));
            }
            let cost: usize = if a[i] == b[k] {
                0
            } else {
                1
            };
            let sub = prev[k] + cost;
            let del = prev[k + 1] + 1;
            let ins = cur[k] + 1;
            let m1 = if sub <= del {
                sub
            } else {
                del
            };
            let best = if m1 <= ins {
                m1
            } else {
                ins
            };
            cur.push(best);
            k += 1;
        }
        prev = cur;
        i += 1;
    }
    assert(sa.subrange(0, sa.len() as int) =~= sa);
    assert(sb.subrange(0, n as int) =~= sb);
    prev[n]
}

/// The index of the first candidate at the smallest distance from `name`, among
/// those within `budget`. A candidate so long that the two lengths together
/// overflow a `usize` cannot exist in memory beside the name, and is passed
/// over.
pub open spec fn best_within(name: Seq<char>, cands: Seq<Seq<char>>, budget: int) -> Option<int>
    decreases cands.len(),
{
    if cands.len() == 0 {
        None
    } else {
        let k = cands.len() - 1;
        let d = lev(name, cands[k]);
        let usable = name.len() + cands[k].len() < usize::MAX;
        match best_within(name, cands.drop_last(), budget) {
            Some(i) => if usable && d < lev(name, cands[i]) {
                Some(k)
            } else {
                Some(i)
            },
            None => if usable && d <= budget {
                Some(k)
            } else {
                None
            },
        }
    }
}

/// A " (did you mean `x`?)" note, or nothing when nothing is close.
///
/// Short names need a near-exact match; long ones tolerate a transposition: the
/// budget is a third of the name's length in bytes, and at least one.
pub open spec fn suggestion(name: &str, cands: Seq<Seq<char>>) -> Seq<char> {
    let budget = if name.spec_bytes().len() / 3 >= 1 {
        name.spec_bytes().len() / 3
    } else {
        1
    };
    match best_within(name@, cands, budget as int) {
        Some(i) => " (did you mean `"@ + cands[i] + "`?)"@,
        None => Seq::empty(),
    }
}

pub open spec fn views(v: Seq<&str>) -> Seq<Seq<char>> {
    v.map_values(|s: &str| s@)
}

/// The caller passes the candidates, so `has-role(war-facotry)` is compared
/// against the roles rather than every name in the language. That scoping is
/// what makes the suggestion useful rather than noise.
pub fn suggest(name: &str, candidates: &Vec<&str>) -> (note: String)
    ensures
        note@ == suggestion(name, views(candidates@)),
{
    let third = name.as_bytes().len() / 3;
    let budget = if third >= 1 {
        third
    } else {
        1
    };
    let ghost cs = views(candidates@);
    let nl = name.unicode_len();
    let mut best: Option<(usize, usize)> = None;
    let mut i: usize = 0;
    while i < candidates.len()
        invariant
            cs == views(candidates@),
            i <= candidates@.len(),
            nl == name@.len(),
            match (best, best_within(name@, cs.subrange(0, i as int), budget as int)) {
                (Some((k, d)), Some(s)) => k == s && d == lev(name@, cs[s]) && k < i,
                (None, None) => true,
                _ => false,
            },
        decreases candidates@.len() - i,
    {
        assert(cs.subrange(0, i + 1).drop_last() =~= cs.subrange(0, i as int));
        let cl = candidates[i].unicode_len();
        if nl >= usize::MAX - cl {
            i += 1;
            continue;
        }
        let d = edit_distance(name, candidates[i]);
        best = match best {
            Some((k, bd)) => if d < bd {
                Some((i, d))
            } else {
                Some((k, bd))
            },
            None => if d <= budget {
                Some((i, d))
            } else {
                None
            },
        };
        i += 1;
    }
    assert(cs.subrange(0, candidates@.len() as int) =~= cs);
    match best {
        Some((k, _)) => {
            let mut s = String::from_str(" (did you mean `");
            s.append(candidates[k]);
            s.append("`?)");
            assert(cs[k as int] == candidates@[k as int]@);
            s
        },
        None => String::new(),
    }
}

} // verus!
