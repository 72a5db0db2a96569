use vstd::prelude::*;

verus! {

// Entities are named by the 64-bit id the ECS gives them. A parent link
// `(child, parent)` says that `child` is attached to `parent`.

/// Every link whose parent is in `s` has its child in `s` too.
pub open spec fn closed_under_links(s: Seq<u64>, links: Seq<(u64, u64)>) -> bool {
    forall|k: int|
        0 <= k < links.len() && #[trigger] s.contains(links[k].1) ==> s.contains(links[k].0)
}

/// Element `i` of `s` is a seed, or the child, by some link, of an element before it.
pub open spec fn derived_at(s: Seq<u64>, seeds: Seq<u64>, links: Seq<(u64, u64)>, i: int) -> bool {
    ||| seeds.contains(s[i])
    ||| exists|k: int, j: int|
        #![trigger links[k], s[j]]
        0 <= k < links.len() && 0 <= j < i && links[k] == (s[i], s[j])
}

/// Every element of `s` is a seed or reached from an earlier element by a link: `s`
/// lists seeds and descendants of seeds only, each after the element it hangs from.
pub open spec fn derived(s: Seq<u64>, seeds: Seq<u64>, links: Seq<(u64, u64)>) -> bool {
    forall|i: int| 0 <= i < s.len() ==> #[trigger] derived_at(s, seeds, links, i)
}

/// `s` is the set of the seeds and all their descendants, each listed once, every
/// descendant after the element it hangs from.
pub open spec fn is_descendant_closure(
    s: Seq<u64>,
    seeds: Seq<u64>,
    links: Seq<(u64, u64)>,
) -> bool {
    &&& s.no_duplicates()
    &&& forall|i: int| 0 <= i < seeds.len() ==> s.contains(#[trigger] seeds[i])
    &&& closed_under_links(s, links)
    &&& derived(s, seeds, links)
}

fn contains_id(s: &Vec<u64>, x: u64) -> (b: bool)
    ensures
        b == s@.contains(x),
{
    let n = s.len();
    let mut i: usize = 0;
    while i < n
        invariant
            n == s.len(),
            i <= n,
            forall|j: int| 0 <= j < i ==> s@[j] != x,
        decreases n - i,
    {
        if s[i] == x {
            return true;
        }
        i = i + 1;
    }
    false
}

/// The candidates a closure can hold: the seeds and the children of all links.
spec fn candidates(seeds: Seq<u64>, links: Seq<(u64, u64)>) -> Seq<u64> {
    seeds + links.map_values(|l: (u64, u64)| l.0)
}

proof fn lemma_no_dup_subseq_len(s: Seq<u64>, c: Seq<u64>)
    requires
        s.no_duplicates(),
        forall|i: int| 0 <= i < s.len() ==> c.contains(#[trigger] s[i]),
    ensures
        s.len() <= c.len(),
{
    s.unique_seq_to_set();
    c.lemma_cardinality_of_set();
    assert(s.to_set().subset_of(c.to_set())) by {
        assert forall|x: u64| s.to_set().contains(x) implies c.to_set().contains(x) by {
            let i = choose|i: int| 0 <= i < s.len() && s[i] == x;
            assert(c.contains(s[i]));
        }
    }
    vstd::seq_lib::seq_to_set_is_finite(c);
    vstd::set_lib::lemma_len_subset(s.to_set(), c.to_set());
}

/// The seeds together with all their descendants through `links`.
///
/// Starting from the seeds, sweeps over the links again and again, adding the child of
/// every link whose parent is already included, until a sweep adds nothing.
pub fn descendant_closure(seeds: &Vec<u64>, links: &Vec<(u64, u64)>) -> (out: Vec<u64>)
    ensures
        is_descendant_closure(out@, seeds@, links@),
{
    let mut out: Vec<u64> = Vec::new();
    let ns = seeds.len();
    let mut i: usize = 0;
    while i < ns
        invariant
            ns == seeds.len(),
            i <= ns,
            out@.no_duplicates(),
            forall|j: int| 0 <= j < i ==> out@.contains(#[trigger] seeds@[j]),
            forall|j: int| 0 <= j < out@.len() ==> seeds@.contains(#[trigger] out@[j]),
        decreases ns - i,
    {
        let x = seeds[i];
        if !contains_id(&out, x) {
            let ghost old_out = out@;
            out.push(x);
            proof {
                assert(out@[out@.len() - 1] == x);
                assert(seeds@[i as int] == x);
                assert forall|j: int| 0 <= j < i implies out@.contains(#[trigger] seeds@[j]) by {
                    let m = choose|m: int| 0 <= m < old_out.len() && old_out[m] == seeds@[j];
                    assert(out@[m] == seeds@[j]);
                }
                assert forall|j: int| 0 <= j < out@.len() implies seeds@.contains(
                    #[trigger] out@[j],
                ) by {
                    if j < old_out.len() {
                        assert(old_out[j] == out@[j]);
                    }
                }
            }
        }
        assert(out@.contains(seeds@[i as int]));
        i = i + 1;
    }
    let ghost cand = candidates(seeds@, links@);
    proof {
        assert forall|j: int| 0 <= j < out@.len() implies cand.contains(#[trigger] out@[j]) by {
            let k = choose|k: int| 0 <= k < seeds@.len() && seeds@[k] == out@[j];
            assert(cand[k] == out@[j]);
        }
        assert forall|j: int| 0 <= j < out@.len() implies #[trigger] derived_at(
            out@,
            seeds@,
            links@,
            j,
        ) by {}
        lemma_no_dup_subseq_len(out@, cand);
    }
    let nl = links.len();
    loop
        invariant
            nl == links.len(),
            cand == candidates(seeds@, links@),
            out@.no_duplicates(),
            forall|j: int| 0 <= j < seeds@.len() ==> out@.contains(#[trigger] seeds@[j]),
            forall|j: int| 0 <= j < out@.len() ==> cand.contains(#[trigger] out@[j]),
            derived(out@, seeds@, links@),
            out@.len() <= cand.len(),
        ensures
            is_descendant_closure(out@, seeds@, links@),
        decreases cand.len() - out@.len(),
    {
        let before = out.len();
        let ghost out_before = out@;
        let mut k: usize = 0;
        while k < nl
            invariant
                nl == links.len(),
                k <= nl,
                cand == candidates(seeds@, links@),
                before <= out@.len(),
                out@.subrange(0, before as int) == out_before,
                before == out_before.len(),
                out@.no_duplicates(),
                forall|j: int| 0 <= j < seeds@.len() ==> out@.contains(#[trigger] seeds@[j]),
                forall|j: int| 0 <= j < out@.len() ==> cand.contains(#[trigger] out@[j]),
                derived(out@, seeds@, links@),
                out@.len() == before ==> forall|m: int|
                    0 <= m < k && #[trigger] out@.contains(links@[m].1) ==> out@.contains(
                        links@[m].0,
                    ),
            decreases nl - k,
        {
            let (child, parent) = links[k];
            if contains_id(&out, parent) && !contains_id(&out, child) {
                let ghost old_out = out@;
                out.push(child);
                proof {
                    let n = old_out.len() as int;
                    assert(out@[n] == child);
                    let j = choose|j: int| 0 <= j < old_out.len() && old_out[j] == parent;
                    assert(links@[k as int] == (out@[n], out@[j]));
                    assert(derived_at(out@, seeds@, links@, n));
                    assert forall|i2: int| 0 <= i2 < out@.len() implies #[trigger] derived_at(
                        out@,
                        seeds@,
                        links@,
                        i2,
                    ) by {
                        if i2 < n {
                            assert(derived_at(old_out, seeds@, links@, i2));
                            assert(out@[i2] == old_out[i2]);
                            if !seeds@.contains(out@[i2]) {
                                let (k2, j2) = choose|k2: int, j2: int|
                                    #![trigger links@[k2], old_out[j2]]
                                    0 <= k2 < links@.len() && 0 <= j2 < i2 && links@[k2] == (
                                        old_out[i2],
                                        old_out[j2],
                                    );
                                assert(links@[k2] == (out@[i2], out@[j2]));
                            }
                        }
                    }
                    assert(cand[seeds@.len() + k] == child);
                    assert forall|j2: int| 0 <= j2 < seeds@.len() implies out@.contains(
                        #[trigger] seeds@[j2],
                    ) by {
                        assert(old_out.contains(seeds@[j2]));
                        let m = choose|m: int| 0 <= m < old_out.len() && old_out[m] == seeds@[j2];
                        assert(out@[m] == seeds@[j2]);
                    }
                    assert(out@.subrange(0, before as int) =~= out_before);
                }
            }
            k = k + 1;
        }
        if out.len() == before {
            break;
        }
        proof {
            lemma_no_dup_subseq_len(out@, cand);
        }
    }
    out
}

/// The entity `root` and everything attached below it, in an order fit for despawning:
/// read backwards it is a descendant closure of `root`, so every entity comes before
/// the entity it hangs from and `root` comes last.
pub fn subtree_despawn_order(root: u64, links: &Vec<(u64, u64)>) -> (out: Vec<u64>)
    ensures
        is_descendant_closure(out@.reverse(), seq![root], links@),
        out@.len() > 0 && out@.last() == root,
{
    let mut seeds: Vec<u64> = Vec::new();
    seeds.push(root);
    assert(seeds@ =~= seq![root]);
    let closure = descendant_closure(&seeds, links);
    proof {
        assert(closure@.contains(seeds@[0]));
        assert(closure@.len() > 0);
        assert(derived_at(closure@, seeds@, links@, 0));
        assert(closure@[0] == root);
    }
    let n = closure.len();
    let mut out: Vec<u64> = Vec::new();
    let mut i: usize = n;
    while i > 0
        invariant
            n == closure.len(),
            i <= n,
            out@.len() == n - i,
            forall|j: int| 0 <= j < out@.len() ==> out@[j] == closure@[n - 1 - j],
        decreases i,
    {
        i = i - 1;
        out.push(closure[i]);
    }
    assert(out@.reverse() =~= closure@);
    out
}

/// A closure holds nothing beyond what must be there: any set that holds the seeds and
/// is closed under the links holds every element of the closure.
pub proof fn lemma_closure_is_least(
    s: Seq<u64>,
    seeds: Seq<u64>,
    links: Seq<(u64, u64)>,
    t: Set<u64>,
)
    requires
        derived(s, seeds, links),
        forall|x: u64| seeds.contains(x) ==> t.contains(x),
        forall|k: int| 0 <= k < links.len() && #[trigger] t.contains(links[k].1) ==> t.contains(links[k].0),
    ensures
        forall|i: int| 0 <= i < s.len() ==> t.contains(#[trigger] s[i]),
{
    assert forall|i: int| 0 <= i < s.len() implies t.contains(#[trigger] s[i]) by {
        lemma_derived_in(s, seeds, links, t, i);
    }
}

proof fn lemma_derived_in(
    s: Seq<u64>,
    seeds: Seq<u64>,
    links: Seq<(u64, u64)>,
    t: Set<u64>,
    i: int,
)
    requires
        derived(s, seeds, links),
        forall|x: u64| seeds.contains(x) ==> t.contains(x),
        forall|k: int| 0 <= k < links.len() && #[trigger] t.contains(links[k].1) ==> t.contains(links[k].0),
        0 <= i < s.len(),
    ensures
        t.contains(s[i]),
    decreases i,
{
    assert(derived_at(s, seeds, links, i));
    if !seeds.contains(s[i]) {
        let (k, j) = choose|k: int, j: int|
            #![trigger links[k], s[j]]
            0 <= k < links.len() && 0 <= j < i && links[k] == (s[i], s[j]);
        lemma_derived_in(s, seeds, links, t, j);
        assert(t.contains(links[k].1));
    }
}

} // verus!
