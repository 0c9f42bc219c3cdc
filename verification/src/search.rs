use vstd::prelude::*;

use crate::util::{contains_string, str_views};

verus! {

/// A directory subtree as the walker hands it to the search: the directory's
/// path (however the front end spells it), the tags its sidecar holds (none
/// where no sidecar exists or it cannot be read), and its child directories.
pub struct DirTree {
    pub path: String,
    pub tags: Vec<String>,
    pub children: Vec<DirTree>,
}

/// Whether a directory's own tags meet the expanded search set.
pub open spec fn tree_matches(t: DirTree, cl: Seq<Seq<char>>) -> bool {
    exists|i: int| 0 <= i < t.tags@.len() && cl.contains(#[trigger] t.tags@[i]@)
}

/// Every matching directory path in the subtree, in depth-first order, a
/// directory before its children, each directory's path at most once.
pub open spec fn matches_in(t: DirTree, cl: Seq<Seq<char>>) -> Seq<Seq<char>>
    decreases t,
{
    let rest = matches_in_list(t.children@, cl);
    if tree_matches(t, cl) {
        seq![t.path@] + rest
    } else {
        rest
    }
}

/// The matching paths of a row of subtrees, in order.
pub open spec fn matches_in_list(ts: Seq<DirTree>, cl: Seq<Seq<char>>) -> Seq<Seq<char>>
    decreases ts,
{
    if ts.len() == 0 {
        Seq::empty()
    } else {
        matches_in(ts[0], cl) + matches_in_list(ts.drop_first(), cl)
    }
}

/// One more subtree at the end of the row adds its matches at the end.
proof fn lemma_matches_in_list_take(ts: Seq<DirTree>, cl: Seq<Seq<char>>, i: int)
    requires
        0 <= i < ts.len(),
    ensures
        matches_in_list(ts.take(i + 1), cl) == matches_in_list(ts.take(i), cl) + matches_in(
            ts[i],
            cl,
        ),
    decreases i,
{
    if i == 0 {
        assert(ts.take(1)[0] == ts[0]);
        assert(ts.take(1).drop_first() =~= Seq::<DirTree>::empty());
        assert(matches_in_list(ts.take(1), cl) == matches_in(ts[0], cl) + matches_in_list(
            Seq::<DirTree>::empty(),
            cl,
        ));
        assert(matches_in(ts[0], cl) + Seq::<Seq<char>>::empty() =~= matches_in(ts[0], cl));
        assert(matches_in_list(ts.take(0), cl) == Seq::<Seq<char>>::empty());
        assert(Seq::<Seq<char>>::empty() + matches_in(ts[0], cl) =~= matches_in(ts[0], cl));
    } else {
        lemma_matches_in_list_take(ts.drop_first(), cl, i - 1);
        assert(ts.take(i + 1)[0] == ts[0]);
        assert(ts.take(i + 1).drop_first() =~= ts.drop_first().take(i));
        assert(ts.take(i)[0] == ts[0]);
        assert(ts.take(i).drop_first() =~= ts.drop_first().take(i - 1));
        assert(ts.drop_first()[i - 1] == ts[i]);
        assert(matches_in_list(ts.take(i + 1), cl) == matches_in(ts[0], cl) + (matches_in_list(
            ts.drop_first().take(i - 1),
            cl,
        ) + matches_in(ts[i], cl)));
        assert(matches_in(ts[0], cl) + (matches_in_list(ts.drop_first().take(i - 1), cl)
            + matches_in(ts[i], cl)) =~= (matches_in(ts[0], cl) + matches_in_list(
            ts.drop_first().take(i - 1),
            cl,
        )) + matches_in(ts[i], cl));
    }
}

/// Whether some tag of `a` occurs in `b`.
fn intersects(a: &Vec<String>, b: &Vec<String>) -> (r: bool)
    ensures
        r == exists|i: int| 0 <= i < a@.len() && str_views(b@).contains(#[trigger] a@[i]@),
{
    let mut i: usize = 0;
    while i < a.len()
        invariant
            0 <= i <= a@.len(),
            forall|j: int| 0 <= j < i ==> !str_views(b@).contains(#[trigger] a@[j]@),
        decreases a@.len() - i,
    {
        if contains_string(b, &a[i]) {
            return true;
        }
        i = i + 1;
    }
    false
}

/// Depth-first search of a scanned subtree: appends to `out` the path of
/// every directory whose tags meet the closure set, each once, a directory
/// before its children. Sidecar-less directories (empty tag lists) never
/// match; the walk always continues into the children.
pub fn search_tree(t: &DirTree, closure_tags: &Vec<String>, out: &mut Vec<String>)
    ensures
        str_views(final(out)@) == str_views(old(out)@) + matches_in(
            *t,
            str_views(closure_tags@),
        ),
    decreases *t,
{
    let ghost cl = str_views(closure_tags@);
    let ghost base = str_views(old(out)@);
    if intersects(&t.tags, closure_tags) {
        let ghost o0 = out@;
        out.push(t.path.clone());
        proof {
            assert(str_views(out@) =~= str_views(o0).push(t.path@));
            assert(str_views(out@) =~= base + (seq![t.path@] + matches_in_list(
                t.children@.take(0),
                cl,
            )));
        }
    } else {
        proof {
            assert(str_views(out@) =~= base + matches_in_list(t.children@.take(0), cl));
        }
    }
    let ghost head: Seq<Seq<char>> = if tree_matches(*t, cl) {
        seq![t.path@]
    } else {
        Seq::empty()
    };
    proof {
        assert(str_views(out@) =~= base + (head + matches_in_list(t.children@.take(0), cl)));
    }
    let mut i: usize = 0;
    while i < t.children.len()
        invariant
            0 <= i <= t.children@.len(),
            cl == str_views(closure_tags@),
            head == if tree_matches(*t, cl) {
                seq![t.path@]
            } else {
                Seq::<Seq<char>>::empty()
            },
            str_views(out@) =~= base + (head + matches_in_list(t.children@.take(i as int), cl)),
        decreases t.children@.len() - i,
    {
        let ghost o0 = str_views(out@);
        search_tree(&t.children[i], closure_tags, out);
        proof {
            lemma_matches_in_list_take(t.children@, cl, i as int);
            assert(str_views(out@) =~= o0 + matches_in(t.children@[i as int], cl));
            assert(str_views(out@) =~= base + (head + matches_in_list(
                t.children@.take(i + 1),
                cl,
            )));
        }
        i = i + 1;
    }
    proof {
        assert(t.children@.take(t.children@.len() as int) =~= t.children@);
        assert(str_views(out@) =~= base + matches_in(*t, cl));
    }
}

/// The recursive search, from the registry's owning directory: the paths of
/// every directory in the subtree whose tags meet the closure set.
pub fn search(root: &DirTree, closure_tags: &Vec<String>) -> (r: Vec<String>)
    ensures
        str_views(r@) == matches_in(*root, str_views(closure_tags@)),
{
    let mut out: Vec<String> = Vec::new();
    proof {
        assert(str_views(out@) =~= Seq::<Seq<char>>::empty());
    }
    search_tree(root, closure_tags, &mut out);
    proof {
        assert(Seq::<Seq<char>>::empty() + matches_in(*root, str_views(closure_tags@))
            =~= matches_in(*root, str_views(closure_tags@)));
    }
    out
}

} // verus!
