use vstd::prelude::*;

verus! {

/// The character sequences of a sequence of strings.
pub open spec fn str_views(v: Seq<String>) -> Seq<Seq<char>> {
    v.map_values(|s: String| s@)
}

/// First-match lookup in an ordered association list.
pub open spec fn lookup<T>(es: Seq<(Seq<char>, T)>, k: Seq<char>) -> Option<T>
    decreases es.len(),
{
    if es.len() == 0 {
        None
    } else if es[0].0 == k {
        Some(es[0].1)
    } else {
        lookup(es.drop_first(), k)
    }
}

/// The keys of an association list, in order.
pub open spec fn keys_of<T>(es: Seq<(Seq<char>, T)>) -> Seq<Seq<char>> {
    es.map_values(|p: (Seq<char>, T)| p.0)
}

/// A key is found exactly when it occurs among the keys.
pub proof fn lemma_lookup_some_iff_key<T>(es: Seq<(Seq<char>, T)>, k: Seq<char>)
    ensures
        lookup(es, k) is Some <==> keys_of(es).contains(k),
    decreases es.len(),
{
    if es.len() == 0 {
    } else if es[0].0 == k {
        assert(keys_of(es)[0] == k);
    } else {
        lemma_lookup_some_iff_key(es.drop_first(), k);
        if keys_of(es.drop_first()).contains(k) {
            let i = choose|i: int|
                0 <= i < keys_of(es.drop_first()).len() && keys_of(es.drop_first())[i] == k;
            assert(keys_of(es)[i + 1] == k);
        }
        if keys_of(es).contains(k) {
            let i = choose|i: int| 0 <= i < keys_of(es).len() && keys_of(es)[i] == k;
            assert(keys_of(es)[i] == es[i].0);
            assert(i >= 1);
            assert(keys_of(es.drop_first())[i - 1] == k);
        }
    }
}

/// Lookup skips over a prefix that does not hold the key.
pub proof fn lemma_lookup_skip<T>(es: Seq<(Seq<char>, T)>, k: Seq<char>, i: int)
    requires
        0 <= i <= es.len(),
        forall|j: int| 0 <= j < i ==> es[j].0 != k,
    ensures
        lookup(es, k) == lookup(es.skip(i), k),
    decreases i,
{
    if i == 0 {
        assert(es.skip(0) =~= es);
    } else {
        lemma_lookup_skip(es.drop_first(), k, i - 1);
        assert(es.drop_first().skip(i - 1) =~= es.skip(i));
    }
}

/// Lookup at an index whose key no earlier entry shares.
pub proof fn lemma_lookup_at<T>(es: Seq<(Seq<char>, T)>, i: int)
    requires
        0 <= i < es.len(),
        forall|j: int| 0 <= j < i ==> es[j].0 != es[i].0,
    ensures
        lookup(es, es[i].0) == Some(es[i].1),
{
    lemma_lookup_skip(es, es[i].0, i);
    assert(es.skip(i)[0] == es[i]);
}

/// Replacing the value at an index changes lookup only for that entry's key.
pub proof fn lemma_lookup_update<T>(es: Seq<(Seq<char>, T)>, i: int, v: T, k: Seq<char>)
    requires
        0 <= i < es.len(),
        keys_of(es).no_duplicates(),
    ensures
        lookup(es.update(i, (es[i].0, v)), k) == if k == es[i].0 {
            Some(v)
        } else {
            lookup(es, k)
        },
    decreases es.len(),
{
    let up = es.update(i, (es[i].0, v));
    assert(keys_of(up) =~= keys_of(es));
    if i == 0 {
        if k != es[0].0 {
            assert(up.drop_first() =~= es.drop_first());
        }
    } else {
        assert(keys_of(es.drop_first()) =~= keys_of(es).drop_first());
        assert(keys_of(es).drop_first().no_duplicates());
        lemma_lookup_update(es.drop_first(), i - 1, v, k);
        assert(up.drop_first() =~= es.drop_first().update(i - 1, (es[i].0, v)));
        if k == es[i].0 {
            assert(keys_of(es)[0] != keys_of(es)[i]);
            assert(up[0].0 != k);
        }
    }
}

/// A found value sits somewhere in the list under its key.
pub proof fn lemma_lookup_in<T>(es: Seq<(Seq<char>, T)>, k: Seq<char>, v: T)
    requires
        lookup(es, k) == Some(v),
    ensures
        exists|i: int| 0 <= i < es.len() && es[i] == (k, v),
    decreases es.len(),
{
    if es[0].0 == k {
        assert(es[0] == (k, v));
    } else {
        lemma_lookup_in(es.drop_first(), k, v);
        let i = choose|i: int|
            0 <= i < es.drop_first().len() && es.drop_first()[i] == (k, v);
        assert(es[i + 1] == (k, v));
    }
}

/// Adding a tag that is already present is a no-op; a new one goes at the end.
pub open spec fn add_new(tags: Seq<Seq<char>>, t: Seq<char>) -> Seq<Seq<char>> {
    if tags.contains(t) {
        tags
    } else {
        tags.push(t)
    }
}

/// Adds each tag of `ts` in turn, each at most once.
pub open spec fn add_all_new(tags: Seq<Seq<char>>, ts: Seq<Seq<char>>) -> Seq<Seq<char>>
    decreases ts.len(),
{
    if ts.len() == 0 {
        tags
    } else {
        add_all_new(add_new(tags, ts[0]), ts.drop_first())
    }
}

/// `add_new` keeps uniqueness, membership of old tags, and adds the new one.
pub proof fn lemma_add_new_facts(tags: Seq<Seq<char>>, t: Seq<char>)
    ensures
        tags.no_duplicates() ==> add_new(tags, t).no_duplicates(),
        add_new(tags, t).contains(t),
        forall|x: Seq<char>| add_new(tags, t).contains(x) <==> (tags.contains(x) || x == t),
{
    if !tags.contains(t) {
        assert(tags.push(t)[tags.len() as int] == t);
        assert forall|x: Seq<char>| #[trigger] tags.push(t).contains(x) implies tags.contains(x)
            || x == t by {
            let j = choose|j: int| 0 <= j < tags.push(t).len() && tags.push(t)[j] == x;
            if j < tags.len() {
                assert(tags[j] == x);
            }
        }
        assert forall|x: Seq<char>| tags.contains(x) implies #[trigger] tags.push(t).contains(
            x,
        ) by {
            let j = choose|j: int| 0 <= j < tags.len() && tags[j] == x;
            assert(tags.push(t)[j] == x);
        }
    }
}

/// Adding one more tag at the end of the batch adds it last.
pub proof fn lemma_add_all_new_push(tags: Seq<Seq<char>>, ts: Seq<Seq<char>>, x: Seq<char>)
    ensures
        add_all_new(tags, ts.push(x)) == add_new(add_all_new(tags, ts), x),
    decreases ts.len(),
{
    if ts.len() == 0 {
        assert(ts.push(x)[0] == x);
        assert(ts.push(x).drop_first() =~= Seq::<Seq<char>>::empty());
        assert(add_all_new(tags, ts.push(x)) == add_all_new(
            add_new(tags, x),
            Seq::<Seq<char>>::empty(),
        ));
        assert(add_all_new(add_new(tags, x), Seq::<Seq<char>>::empty()) == add_new(tags, x));
        assert(add_all_new(tags, ts) == tags);
    } else {
        assert(ts.push(x)[0] == ts[0]);
        assert(ts.push(x).drop_first() =~= ts.drop_first().push(x));
        assert(add_all_new(tags, ts.push(x)) == add_all_new(
            add_new(tags, ts[0]),
            ts.drop_first().push(x),
        ));
        assert(add_all_new(tags, ts) == add_all_new(add_new(tags, ts[0]), ts.drop_first()));
        lemma_add_all_new_push(add_new(tags, ts[0]), ts.drop_first(), x);
    }
}

/// A string-by-string copy of a vector of strings.
pub fn clone_strings(v: &Vec<String>) -> (r: Vec<String>)
    ensures
        r@ == v@,
{
    let mut out: Vec<String> = Vec::new();
    let mut i: usize = 0;
    while i < v.len()
        invariant
            0 <= i <= v@.len(),
            out@ =~= v@.take(i as int),
        decreases v@.len() - i,
    {
        out.push(v[i].clone());
        proof {
            assert(out@ =~= v@.take(i + 1));
        }
        i = i + 1;
    }
    proof {
        assert(v@.take(v@.len() as int) =~= v@);
    }
    out
}

/// Whether a string with the given characters occurs in the vector.
pub fn contains_string(v: &Vec<String>, s: &String) -> (r: bool)
    ensures
        r == str_views(v@).contains(s@),
{
    let mut i: usize = 0;
    while i < v.len()
        invariant
            0 <= i <= v@.len(),
            forall|j: int| 0 <= j < i ==> (#[trigger] v@[j])@ != s@,
        decreases v@.len() - i,
    {
        if v[i] == *s {
            assert(str_views(v@)[i as int] == s@);
            return true;
        }
        i = i + 1;
    }
    assert(!str_views(v@).contains(s@)) by {
        if str_views(v@).contains(s@) {
            let j = choose|j: int| 0 <= j < str_views(v@).len() && str_views(v@)[j] == s@;
            assert(v@[j]@ != s@);
        }
    }
    false
}

} // verus!
