use vstd::prelude::*;

use crate::registry::{Registry, RegistryModel, TagDefModel};
use crate::util::{
    clone_strings, contains_string, lemma_lookup_in, lemma_lookup_some_iff_key, str_views,
};

verus! {

use vstd::seq_lib::*;
use vstd::set_lib::lemma_len_subset;

/// A set closed under the registry's subtag relation: whatever it holds, it
/// holds the direct subtags of as well.
pub open spec fn closed_under(reg: RegistryModel, s: Set<Seq<char>>) -> bool {
    forall|a: Seq<char>, b: Seq<char>|
        #![trigger s.contains(a), reg.subtags_of(a).contains(b)]
        s.contains(a) && reg.subtags_of(a).contains(b) ==> s.contains(b)
}

/// Every subtag named anywhere in the registry.
pub open spec fn subtags_pool(entries: Seq<(Seq<char>, TagDefModel)>) -> Set<Seq<char>>
    decreases entries.len(),
{
    if entries.len() == 0 {
        Set::empty()
    } else {
        entries[0].1.subtags.to_set().union(subtags_pool(entries.drop_first()))
    }
}

/// Everything a closure run can ever reach: the seeds and the pool.
pub open spec fn tag_universe(reg: RegistryModel, seeds: Seq<Seq<char>>) -> Set<Seq<char>> {
    seeds.to_set().union(subtags_pool(reg.entries))
}

proof fn lemma_pool_finite(entries: Seq<(Seq<char>, TagDefModel)>)
    ensures
        subtags_pool(entries).finite(),
    decreases entries.len(),
{
    if entries.len() > 0 {
        seq_to_set_is_finite(entries[0].1.subtags);
        lemma_pool_finite(entries.drop_first());
    }
}

proof fn lemma_pool_covers(entries: Seq<(Seq<char>, TagDefModel)>, i: int)
    requires
        0 <= i < entries.len(),
    ensures
        entries[i].1.subtags.to_set().subset_of(subtags_pool(entries)),
    decreases entries.len(),
{
    if i > 0 {
        lemma_pool_covers(entries.drop_first(), i - 1);
        assert(entries.drop_first()[i - 1] == entries[i]);
    }
}

/// The universe is finite and holds the seeds and every reachable subtag.
proof fn lemma_universe_facts(reg: RegistryModel, seeds: Seq<Seq<char>>)
    ensures
        tag_universe(reg, seeds).finite(),
        forall|t: Seq<char>|
            seeds.contains(t) ==> #[trigger] tag_universe(reg, seeds).contains(t),
        forall|a: Seq<char>, b: Seq<char>|
            #[trigger] reg.subtags_of(a).contains(b) ==> tag_universe(reg, seeds).contains(b),
{
    seq_to_set_is_finite(seeds);
    lemma_pool_finite(reg.entries);
    assert forall|t: Seq<char>| seeds.contains(t) implies #[trigger] tag_universe(
        reg,
        seeds,
    ).contains(t) by {
        assert(seeds.to_set().contains(t));
    }
    assert forall|a: Seq<char>, b: Seq<char>|
        #[trigger] reg.subtags_of(a).contains(b) implies tag_universe(reg, seeds).contains(
        b,
    ) by {
        let d = match reg.def_of(a) {
            Some(d) => d,
            None => TagDefModel {
                version: Seq::empty(),
                aliases: Seq::empty(),
                subtags: Seq::empty(),
            },
        };
        lemma_lookup_in(reg.entries, a, d);
        let i = choose|i: int| 0 <= i < reg.entries.len() && reg.entries[i] == (a, d);
        lemma_pool_covers(reg.entries, i);
        assert(d.subtags.to_set().contains(b));
    }
}

/// Law: the closure is the one set of its kind. Any two sets that hold the
/// seeds, are closed, and sit inside every closed superset of the seeds, are
/// the same set.
pub proof fn lemma_closure_unique(
    reg: RegistryModel,
    seeds: Set<Seq<char>>,
    s1: Set<Seq<char>>,
    s2: Set<Seq<char>>,
)
    requires
        seeds.subset_of(s1),
        closed_under(reg, s1),
        forall|s: Set<Seq<char>>|
            #[trigger] closed_under(reg, s) && seeds.subset_of(s) ==> s1.subset_of(s),
        seeds.subset_of(s2),
        closed_under(reg, s2),
        forall|s: Set<Seq<char>>|
            #[trigger] closed_under(reg, s) && seeds.subset_of(s) ==> s2.subset_of(s),
    ensures
        s1 == s2,
{
    assert(s1 =~= s2);
}

/// Expands the seed tags into the full transitive closure of the registry's
/// subtag relation. Seeds the registry does not define are kept as they are;
/// a subtag cycle is walked at most once; the result holds each tag once and
/// is exactly the least set that holds the seeds and is closed.
pub fn closure_of(reg: &Registry, seeds: &Vec<String>) -> (r: Vec<String>)
    ensures
        str_views(r@).no_duplicates(),
        str_views(seeds@).to_set().subset_of(str_views(r@).to_set()),
        closed_under(reg@, str_views(r@).to_set()),
        forall|s: Set<Seq<char>>|
            #[trigger] closed_under(reg@, s) && str_views(seeds@).to_set().subset_of(s)
                ==> str_views(r@).to_set().subset_of(s),
{
    let ghost uni = tag_universe(reg@, str_views(seeds@));
    proof {
        lemma_universe_facts(reg@, str_views(seeds@));
    }
    let mut out: Vec<String> = Vec::new();
    let mut queue: Vec<String> = clone_strings(seeds);
    proof {
        assert(str_views(out@) =~= Seq::<Seq<char>>::empty());
        assert forall|j: int| 0 <= j < str_views(queue@).len() implies uni.contains(
            #[trigger] str_views(queue@)[j],
        ) by {
            assert(str_views(seeds@).contains(str_views(seeds@)[j]));
        }
    }
    while queue.len() > 0
        invariant
            uni == tag_universe(reg@, str_views(seeds@)),
            uni.finite(),
            forall|a: Seq<char>, b: Seq<char>|
                #[trigger] reg@.subtags_of(a).contains(b) ==> uni.contains(b),
            str_views(out@).no_duplicates(),
            forall|j: int| 0 <= j < str_views(out@).len() ==> uni.contains(
                #[trigger] str_views(out@)[j],
            ),
            forall|j: int| 0 <= j < str_views(queue@).len() ==> uni.contains(
                #[trigger] str_views(queue@)[j],
            ),
            forall|t: Seq<char>|
                str_views(seeds@).contains(t) ==> (str_views(out@).contains(t) || str_views(
                    queue@,
                ).contains(t)),
            forall|a: Seq<char>, b: Seq<char>|
                #![trigger str_views(out@).contains(a), reg@.subtags_of(a).contains(b)]
                str_views(out@).contains(a) && reg@.subtags_of(a).contains(b) ==> (str_views(
                    out@,
                ).contains(b) || str_views(queue@).contains(b)),
            forall|s: Set<Seq<char>>|
                #[trigger] closed_under(reg@, s) && str_views(seeds@).to_set().subset_of(s)
                    ==> (str_views(out@).to_set().subset_of(s) && str_views(
                    queue@,
                ).to_set().subset_of(s)),
        decreases uni.len() - str_views(out@).len(), str_views(queue@).len(),
    {
        proof {
            str_views(out@).unique_seq_to_set();
            assert(str_views(out@).to_set().subset_of(uni)) by {
                assert forall|t: Seq<char>| str_views(out@).to_set().contains(t)
                    implies uni.contains(t) by {
                    let j = choose|j: int|
                        0 <= j < str_views(out@).len() && str_views(out@)[j] == t;
                    assert(uni.contains(str_views(out@)[j]));
                }
            }
            lemma_len_subset(str_views(out@).to_set(), uni);
        }
        let ghost out0 = str_views(out@);
        let ghost queue0 = str_views(queue@);
        let t = queue.pop().unwrap();
        proof {
            assert(str_views(queue@) =~= queue0.drop_last());
            assert(queue0[queue0.len() - 1] == t@);
            assert(queue0.contains(t@));
            assert forall|x: Seq<char>| str_views(queue@).contains(x) implies queue0.contains(
                x,
            ) by {
                let j = choose|j: int|
                    0 <= j < str_views(queue@).len() && str_views(queue@)[j] == x;
                assert(queue0[j] == x);
            }
            assert forall|x: Seq<char>| queue0.contains(x) implies (queue0.drop_last().contains(
                x,
            ) || x == t@) by {
                let j = choose|j: int| 0 <= j < queue0.len() && queue0[j] == x;
                if j < queue0.len() - 1 {
                    assert(queue0.drop_last()[j] == x);
                }
            }
            assert forall|x: Seq<char>| queue0.contains(x) implies uni.contains(x) by {
                let j = choose|j: int| 0 <= j < queue0.len() && queue0[j] == x;
                assert(uni.contains(queue0[j]));
            }
        }
        if !contains_string(&out, &t) {
            out.push(t.clone());
            proof {
                assert(str_views(out@) =~= out0.push(t@));
                assert(str_views(out@).contains(t@)) by {
                    assert(str_views(out@)[out0.len() as int] == t@);
                }
                assert forall|x: Seq<char>| str_views(out@).contains(x) implies (out0.contains(x)
                    || x == t@) by {
                    let j = choose|j: int|
                        0 <= j < str_views(out@).len() && str_views(out@)[j] == x;
                    if j < out0.len() {
                        assert(out0[j] == x);
                    }
                }
                assert forall|x: Seq<char>| out0.contains(x) implies str_views(out@).contains(
                    x,
                ) by {
                    let j = choose|j: int| 0 <= j < out0.len() && out0[j] == x;
                    assert(str_views(out@)[j] == x);
                }
                assert forall|j: int| 0 <= j < str_views(out@).len() implies uni.contains(
                    #[trigger] str_views(out@)[j],
                ) by {
                    if j < out0.len() {
                        assert(str_views(out@)[j] == out0[j]);
                        assert(uni.contains(out0[j]));
                    } else {
                        assert(str_views(out@)[j] == t@);
                        assert(uni.contains(t@)) by {
                            assert(uni.contains(queue0[queue0.len() - 1]));
                        }
                    }
                }
                str_views(out@).unique_seq_to_set();
                assert(str_views(out@).to_set().subset_of(uni)) by {
                    assert forall|x: Seq<char>| str_views(out@).to_set().contains(x)
                        implies uni.contains(x) by {
                        let j = choose|j: int|
                            0 <= j < str_views(out@).len() && str_views(out@)[j] == x;
                        assert(uni.contains(str_views(out@)[j]));
                    }
                }
                lemma_len_subset(str_views(out@).to_set(), uni);
            }
            let subtags_opt = reg.get_subtags(&t);
            match subtags_opt {
                Some(subs) => {
                    let ghost added = str_views(subs@);
                    let mut k: usize = 0;
                    while k < subs.len()
                        invariant
                            0 <= k <= subs@.len(),
                            added == str_views(subs@),
                            str_views(queue@) =~= queue0.drop_last() + added.take(k as int),
                        decreases subs@.len() - k,
                    {
                        let ghost q0 = str_views(queue@);
                        queue.push(subs[k].clone());
                        proof {
                            assert(str_views(queue@) =~= q0.push(added[k as int]));
                            assert(str_views(queue@) =~= queue0.drop_last() + added.take(
                                k + 1,
                            ));
                        }
                        k = k + 1;
                    }
                    proof {
                        assert(added.take(added.len() as int) =~= added);
                        assert(str_views(queue@) =~= queue0.drop_last() + added);
                        assert(added == reg@.subtags_of(t@));
                        assert forall|x: Seq<char>| str_views(queue@).contains(x) implies (
                        queue0.drop_last().contains(x) || added.contains(x)) by {
                            let j = choose|j: int|
                                0 <= j < str_views(queue@).len() && str_views(queue@)[j] == x;
                            if j < queue0.drop_last().len() {
                                assert(queue0.drop_last()[j] == x);
                            } else {
                                assert(added[j - queue0.drop_last().len()] == x);
                            }
                        }
                        assert forall|x: Seq<char>| (queue0.drop_last().contains(x)
                            || added.contains(x)) implies str_views(queue@).contains(x) by {
                            if queue0.drop_last().contains(x) {
                                let j = choose|j: int|
                                    0 <= j < queue0.drop_last().len() && queue0.drop_last()[j]
                                        == x;
                                assert(str_views(queue@)[j] == x);
                            } else {
                                let j = choose|j: int| 0 <= j < added.len() && added[j] == x;
                                assert(str_views(queue@)[queue0.drop_last().len() + j] == x);
                            }
                        }
                        assert forall|s: Set<Seq<char>>|
                            #[trigger] closed_under(reg@, s) && str_views(
                                seeds@,
                            ).to_set().subset_of(s) implies (str_views(out@).to_set().subset_of(
                            s,
                        ) && str_views(queue@).to_set().subset_of(s)) by {
                            assert(queue0.to_set().subset_of(s));
                            assert(s.contains(t@)) by {
                                assert(queue0.to_set().contains(t@));
                            }
                            assert forall|x: Seq<char>| str_views(queue@).to_set().contains(x)
                                implies s.contains(x) by {
                                if queue0.drop_last().contains(x) {
                                    assert(queue0.contains(x));
                                    assert(queue0.to_set().contains(x));
                                } else {
                                    assert(added.contains(x));
                                    assert(reg@.subtags_of(t@).contains(x));
                                    assert(s.contains(t@) && reg@.subtags_of(t@).contains(x));
                                }
                            }
                            assert forall|x: Seq<char>| str_views(out@).to_set().contains(x)
                                implies s.contains(x) by {
                                if out0.contains(x) {
                                    assert(out0.to_set().contains(x));
                                } else {
                                    assert(x == t@);
                                    assert(queue0.to_set().contains(t@));
                                }
                            }
                        }
                        assert forall|j: int| 0 <= j < str_views(queue@).len() implies uni.contains(
                            #[trigger] str_views(queue@)[j],
                        ) by {
                            let x = str_views(queue@)[j];
                            assert(str_views(queue@).contains(x));
                            if queue0.drop_last().contains(x) {
                                assert(queue0.contains(x));
                            } else {
                                assert(added.contains(x));
                                assert(reg@.subtags_of(t@).contains(x));
                            }
                        }
                        assert forall|t2: Seq<char>| str_views(seeds@).contains(t2) implies (
                        str_views(out@).contains(t2) || str_views(queue@).contains(t2)) by {
                            assert(out0.contains(t2) || queue0.contains(t2));
                            if out0.contains(t2) {
                                assert(str_views(out@).contains(t2));
                            } else if queue0.contains(t2) {
                                if t2 == t@ {
                                    assert(str_views(out@).contains(t@));
                                } else {
                                    assert(queue0.drop_last().contains(t2));
                                    let j = choose|j: int|
                                        0 <= j < queue0.drop_last().len()
                                            && queue0.drop_last()[j] == t2;
                                    assert(str_views(queue@)[j] == t2);
                                }
                            }
                        }
                        assert forall|a: Seq<char>, b: Seq<char>|
                            #![trigger str_views(out@).contains(a), reg@.subtags_of(a).contains(b)]
                            str_views(out@).contains(a) && reg@.subtags_of(a).contains(b)
                            implies (str_views(out@).contains(b) || str_views(queue@).contains(
                            b,
                        )) by {
                            if out0.contains(a) {
                                assert(out0.contains(a) && reg@.subtags_of(a).contains(b));
                                if out0.contains(b) {
                                    assert(str_views(out@).contains(b));
                                } else if queue0.contains(b) {
                                    if b == t@ {
                                        assert(str_views(out@).contains(t@));
                                    } else {
                                        assert(queue0.drop_last().contains(b));
                                        let j = choose|j: int|
                                            0 <= j < queue0.drop_last().len()
                                                && queue0.drop_last()[j] == b;
                                        assert(str_views(queue@)[j] == b);
                                    }
                                }
                            } else {
                                assert(a == t@);
                                assert(added.contains(b));
                                let j = choose|j: int| 0 <= j < added.len() && added[j] == b;
                                assert(str_views(queue@)[queue0.drop_last().len() + j] == b);
                            }
                        }
                    }
                },
                None => {
                    proof {
                        lemma_lookup_some_iff_key(reg@.entries, t@);
                        assert(reg@.subtags_of(t@) =~= Seq::<Seq<char>>::empty());
                        assert forall|s: Set<Seq<char>>|
                            #[trigger] closed_under(reg@, s) && str_views(
                                seeds@,
                            ).to_set().subset_of(s) implies (str_views(out@).to_set().subset_of(
                            s,
                        ) && str_views(queue@).to_set().subset_of(s)) by {
                            assert(queue0.to_set().subset_of(s));
                            assert forall|x: Seq<char>| str_views(queue@).to_set().contains(x)
                                implies s.contains(x) by {
                                assert(queue0.contains(x));
                                assert(queue0.to_set().contains(x));
                            }
                            assert forall|x: Seq<char>| str_views(out@).to_set().contains(x)
                                implies s.contains(x) by {
                                if out0.contains(x) {
                                    assert(out0.to_set().contains(x));
                                } else {
                                    assert(x == t@);
                                    assert(queue0.to_set().contains(t@));
                                }
                            }
                        }
                        assert forall|j: int| 0 <= j < str_views(queue@).len() implies uni.contains(
                            #[trigger] str_views(queue@)[j],
                        ) by {
                            assert(str_views(queue@).contains(str_views(queue@)[j]));
                            assert(queue0.contains(str_views(queue@)[j]));
                        }
                        assert forall|t2: Seq<char>| str_views(seeds@).contains(t2) implies (
                        str_views(out@).contains(t2) || str_views(queue@).contains(t2)) by {
                            assert(out0.contains(t2) || queue0.contains(t2));
                            if out0.contains(t2) {
                                assert(str_views(out@).contains(t2));
                            } else if queue0.contains(t2) {
                                if t2 == t@ {
                                    assert(str_views(out@).contains(t@));
                                } else {
                                    assert(queue0.drop_last().contains(t2));
                                    let j = choose|j: int|
                                        0 <= j < queue0.drop_last().len()
                                            && queue0.drop_last()[j] == t2;
                                    assert(str_views(queue@)[j] == t2);
                                }
                            }
                        }
                        assert forall|a: Seq<char>, b: Seq<char>|
                            #![trigger str_views(out@).contains(a), reg@.subtags_of(a).contains(b)]
                            str_views(out@).contains(a) && reg@.subtags_of(a).contains(b)
                            implies (str_views(out@).contains(b) || str_views(queue@).contains(
                            b,
                        )) by {
                            if out0.contains(a) {
                                assert(out0.contains(a) && reg@.subtags_of(a).contains(b));
                                if out0.contains(b) {
                                    assert(str_views(out@).contains(b));
                                } else if queue0.contains(b) {
                                    if b == t@ {
                                        assert(str_views(out@).contains(t@));
                                    } else {
                                        assert(queue0.drop_last().contains(b));
                                        let j = choose|j: int|
                                            0 <= j < queue0.drop_last().len()
                                                && queue0.drop_last()[j] == b;
                                        assert(str_views(queue@)[j] == b);
                                    }
                                }
                            } else {
                                assert(a == t@);
                            }
                        }
                    }
                },
            }
        } else {
            proof {
                assert forall|s: Set<Seq<char>>|
                    #[trigger] closed_under(reg@, s) && str_views(seeds@).to_set().subset_of(s)
                    implies (str_views(out@).to_set().subset_of(s) && str_views(
                    queue@,
                ).to_set().subset_of(s)) by {
                    assert(queue0.to_set().subset_of(s));
                    assert forall|x: Seq<char>| str_views(queue@).to_set().contains(x)
                        implies s.contains(x) by {
                        assert(queue0.contains(x));
                        assert(queue0.to_set().contains(x));
                    }
                }
                assert forall|j: int| 0 <= j < str_views(queue@).len() implies uni.contains(
                    #[trigger] str_views(queue@)[j],
                ) by {
                    assert(str_views(queue@).contains(str_views(queue@)[j]));
                    assert(queue0.contains(str_views(queue@)[j]));
                }
                assert forall|t2: Seq<char>| str_views(seeds@).contains(t2) implies (str_views(
                    out@,
                ).contains(t2) || str_views(queue@).contains(t2)) by {
                    assert(out0.contains(t2) || queue0.contains(t2));
                    if out0.contains(t2) {
                        assert(str_views(out@).contains(t2));
                    } else if queue0.contains(t2) {
                        if t2 == t@ {
                            assert(str_views(out@).contains(t@));
                        } else {
                            assert(queue0.drop_last().contains(t2));
                            let j = choose|j: int|
                                0 <= j < queue0.drop_last().len() && queue0.drop_last()[j] == t2;
                            assert(str_views(queue@)[j] == t2);
                        }
                    }
                }
                assert forall|a: Seq<char>, b: Seq<char>|
                    #![trigger str_views(out@).contains(a), reg@.subtags_of(a).contains(b)]
                    str_views(out@).contains(a) && reg@.subtags_of(a).contains(b) implies (
                str_views(out@).contains(b) || str_views(queue@).contains(b)) by {
                    assert(out0.contains(a) && reg@.subtags_of(a).contains(b));
                    if out0.contains(b) {
                        assert(str_views(out@).contains(b));
                    } else if queue0.contains(b) {
                        if b == t@ {
                            assert(str_views(out@).contains(t@));
                        } else {
                            assert(queue0.drop_last().contains(b));
                            let j = choose|j: int|
                                0 <= j < queue0.drop_last().len() && queue0.drop_last()[j] == b;
                            assert(str_views(queue@)[j] == b);
                        }
                    }
                }
            }
        }
    }
    proof {
        assert forall|t: Seq<char>| str_views(seeds@).to_set().contains(t) implies str_views(
            out@,
        ).to_set().contains(t) by {
            assert(str_views(seeds@).contains(t));
            assert(!str_views(queue@).contains(t));
        }
        assert(closed_under(reg@, str_views(out@).to_set())) by {
            assert forall|a: Seq<char>, b: Seq<char>|
                #![trigger str_views(out@).to_set().contains(a), reg@.subtags_of(a).contains(b)]
                str_views(out@).to_set().contains(a) && reg@.subtags_of(a).contains(b)
                implies str_views(out@).to_set().contains(b) by {
                assert(str_views(out@).contains(a));
                assert(!str_views(queue@).contains(b));
            }
        }
    }
    out
}

} // verus!
