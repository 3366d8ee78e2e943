//! Task dependency graphs: prerequisite look-up, walks along dependency
//! edges, and the cycle check that guards task creation and update.

use vstd::prelude::*;
use vstd::seq_lib::*;
use vstd::set_lib::lemma_len_subset;

use crate::text::str_eq;

verus! {

/// The character sequences of a sequence of strings.
pub open spec fn str_views(s: Seq<String>) -> Seq<Seq<char>> {
    s.map_values(|x: String| x@)
}

/// An edge list as the store keeps it: each node id with the ids it
/// depends on.
pub open spec fn graph_view(all: Seq<(String, Vec<String>)>) -> Seq<(Seq<char>, Seq<Seq<char>>)> {
    all.map_values(|p: (String, Vec<String>)| (p.0@, str_views(p.1@)))
}

/// The prerequisites of `id`: those of its first entry, or none when the
/// graph has no entry for it.
pub open spec fn deps_of(g: Seq<(Seq<char>, Seq<Seq<char>>)>, id: Seq<char>) -> Seq<Seq<char>>
    decreases g.len(),
{
    if g.len() == 0 {
        Seq::empty()
    } else if g[0].0 == id {
        g[0].1
    } else {
        deps_of(g.drop_first(), id)
    }
}

/// A walk through the graph: every step follows a dependency edge.
pub open spec fn is_path(g: Seq<(Seq<char>, Seq<Seq<char>>)>, p: Seq<Seq<char>>) -> bool {
    &&& p.len() >= 1
    &&& forall|i: int| 0 <= i < p.len() - 1 ==> deps_of(g, #[trigger] p[i]).contains(p[i + 1])
}

/// Whether some walk leads from one of `starts` to `target`.
pub open spec fn spec_reaches(
    g: Seq<(Seq<char>, Seq<Seq<char>>)>,
    starts: Seq<Seq<char>>,
    target: Seq<char>,
) -> bool {
    exists|p: Seq<Seq<char>>|
        is_path(g, p) && starts.contains(p[0]) && p.last() == target
}

proof fn lemma_deps_found(g: Seq<(Seq<char>, Seq<Seq<char>>)>, id: Seq<char>, i: int)
    requires
        0 <= i < g.len(),
        g[i].0 == id,
        forall|j: int| 0 <= j < i ==> g[j].0 != id,
    ensures
        deps_of(g, id) == g[i].1,
    decreases i,
{
    if i > 0 {
        lemma_deps_found(g.drop_first(), id, i - 1);
    }
}

proof fn lemma_deps_missing(g: Seq<(Seq<char>, Seq<Seq<char>>)>, id: Seq<char>)
    requires
        forall|j: int| 0 <= j < g.len() ==> g[j].0 != id,
    ensures
        deps_of(g, id) == Seq::<Seq<char>>::empty(),
    decreases g.len(),
{
    if g.len() > 0 {
        lemma_deps_missing(g.drop_first(), id);
    }
}

proof fn lemma_reach_start(
    g: Seq<(Seq<char>, Seq<Seq<char>>)>,
    starts: Seq<Seq<char>>,
    x: Seq<char>,
)
    requires
        starts.contains(x),
    ensures
        spec_reaches(g, starts, x),
{
    let p = seq![x];
    assert(is_path(g, p) && starts.contains(p[0]) && p.last() == x);
}

proof fn lemma_reach_step(
    g: Seq<(Seq<char>, Seq<Seq<char>>)>,
    starts: Seq<Seq<char>>,
    a: Seq<char>,
    b: Seq<char>,
)
    requires
        spec_reaches(g, starts, a),
        deps_of(g, a).contains(b),
    ensures
        spec_reaches(g, starts, b),
{
    let p = choose|p: Seq<Seq<char>>|
        is_path(g, p) && starts.contains(p[0]) && p.last() == a;
    let q = p.push(b);
    assert forall|i: int| 0 <= i < q.len() - 1 implies deps_of(g, #[trigger] q[i]).contains(
        q[i + 1],
    ) by {
        if i < p.len() - 1 {
            assert(deps_of(g, p[i]).contains(p[i + 1]));
        } else {
            assert(q[i] == p.last());
        }
    }
    assert(is_path(g, q) && starts.contains(q[0]) && q.last() == b);
}

proof fn lemma_path_stays_closed(
    g: Seq<(Seq<char>, Seq<Seq<char>>)>,
    vs: Seq<Seq<char>>,
    p: Seq<Seq<char>>,
)
    requires
        is_path(g, p),
        vs.contains(p[0]),
        forall|k: int, d: Seq<char>|
            0 <= k < vs.len() && #[trigger] deps_of(g, vs[k]).contains(d) ==> vs.contains(d),
    ensures
        vs.contains(p.last()),
    decreases p.len(),
{
    if p.len() > 1 {
        let q = p.drop_last();
        assert forall|i: int| 0 <= i < q.len() - 1 implies deps_of(g, #[trigger] q[i]).contains(
            q[i + 1],
        ) by {
            assert(deps_of(g, p[i]).contains(p[i + 1]));
        }
        lemma_path_stays_closed(g, vs, q);
        let k = choose|k: int| 0 <= k < vs.len() && vs[k] == q.last();
        assert(deps_of(g, p[p.len() - 2]).contains(p.last()));
        assert(deps_of(g, vs[k]).contains(p.last()));
    }
}

/// Every prerequisite anywhere in the graph, concatenated.
pub open spec fn all_deps(g: Seq<(Seq<char>, Seq<Seq<char>>)>) -> Seq<Seq<char>>
    decreases g.len(),
{
    if g.len() == 0 {
        Seq::empty()
    } else {
        g[0].1 + all_deps(g.drop_first())
    }
}

proof fn lemma_deps_sub_all(g: Seq<(Seq<char>, Seq<Seq<char>>)>, id: Seq<char>, d: Seq<char>)
    requires
        deps_of(g, id).contains(d),
    ensures
        all_deps(g).contains(d),
    decreases g.len(),
{
    if g.len() > 0 {
        if g[0].0 == id {
            let i = choose|i: int| 0 <= i < g[0].1.len() && g[0].1[i] == d;
            assert(all_deps(g)[i] == d);
        } else {
            lemma_deps_sub_all(g.drop_first(), id, d);
            let i = choose|i: int|
                0 <= i < all_deps(g.drop_first()).len() && all_deps(g.drop_first())[i] == d;
            assert(all_deps(g)[g[0].1.len() + i] == d);
        }
    }
}

/// Whether a vector of strings holds one with the given characters.
pub fn contains_str(v: &Vec<String>, s: &str) -> (r: bool)
    ensures
        r == str_views(v@).contains(s@),
{
    let mut i: usize = 0;
    while i < v.len()
        invariant
            i <= v@.len(),
            forall|j: int| 0 <= j < i ==> v@[j]@ != s@,
        decreases v@.len() - i,
    {
        if str_eq(v[i].as_str(), s) {
            assert(str_views(v@)[i as int] == s@);
            return true;
        }
        i = i + 1;
    }
    assert forall|j: int| 0 <= j < str_views(v@).len() implies str_views(v@)[j] != s@ by {
        assert(v@[j]@ != s@);
    }
    false
}

/// Look up the first entry for `id`, handing back its prerequisites.
fn find_deps<'a>(all: &'a [(String, Vec<String>)], id: &str) -> (r: Option<&'a Vec<String>>)
    ensures
        match r {
            Some(d) => deps_of(graph_view(all@), id@) == str_views(d@),
            None => deps_of(graph_view(all@), id@) == Seq::<Seq<char>>::empty(),
        },
{
    let ghost g = graph_view(all@);
    let mut i: usize = 0;
    while i < all.len()
        invariant
            i <= all@.len(),
            g == graph_view(all@),
            forall|j: int| 0 <= j < i ==> g[j].0 != id@,
        decreases all@.len() - i,
    {
        if str_eq(all[i].0.as_str(), id) {
            proof {
                lemma_deps_found(g, id@, i as int);
            }
            return Some(&all[i].1);
        }
        i = i + 1;
    }
    proof {
        lemma_deps_missing(g, id@);
    }
    None
}

/// Whether adding a task with the given prerequisites would close a
/// dependency cycle: true exactly when some walk through the existing
/// graph leads from one of `depends_on` back to `task_id`.
pub fn has_cycle(
    task_id: &str,
    depends_on: &[String],
    all_tasks: &[(String, Vec<String>)],
) -> (r: bool)
    ensures
        r == spec_reaches(graph_view(all_tasks@), str_views(depends_on@), task_id@),
{
    let ghost g = graph_view(all_tasks@);
    let ghost starts = str_views(depends_on@);
    let ghost target = task_id@;
    let ghost uni = (starts + all_deps(g)).to_set();
    proof {
        broadcast use seq_to_set_is_finite;

    }

    let mut visited: Vec<String> = Vec::new();
    let mut stack: Vec<String> = Vec::new();
    let mut i: usize = 0;
    while i < depends_on.len()
        invariant
            i <= depends_on@.len(),
            stack@.len() == i,
            forall|k: int| 0 <= k < i ==> stack@[k]@ == depends_on@[k]@,
        decreases depends_on@.len() - i,
    {
        stack.push(depends_on[i].clone());
        i = i + 1;
    }

    proof {
        assert forall|k: int| 0 <= k < stack@.len() implies uni.contains(#[trigger] stack@[k]@) by {
            assert((starts + all_deps(g))[k] == starts[k]);
        }
        assert forall|x: Seq<char>| starts.contains(x) implies str_views(visited@).contains(x)
            || str_views(stack@).contains(x) by {
            let k = choose|k: int| 0 <= k < starts.len() && starts[k] == x;
            assert(str_views(stack@)[k] == x);
        }
        assert forall|k: int| 0 <= k < stack@.len() implies spec_reaches(
            g,
            starts,
            #[trigger] stack@[k]@,
        ) by {
            assert(starts[k] == stack@[k]@);
            lemma_reach_start(g, starts, stack@[k]@);
        }
    }

    while stack.len() > 0
        invariant
            g == graph_view(all_tasks@),
            starts == str_views(depends_on@),
            target == task_id@,
            uni == (starts + all_deps(g)).to_set(),
            forall|k: int| 0 <= k < stack@.len() ==> spec_reaches(g, starts, #[trigger] stack@[k]@),
            forall|k: int|
                0 <= k < visited@.len() ==> spec_reaches(g, starts, #[trigger] visited@[k]@),
            forall|k: int| 0 <= k < visited@.len() ==> #[trigger] visited@[k]@ != target,
            forall|x: Seq<char>|
                starts.contains(x) ==> str_views(visited@).contains(x) || str_views(
                    stack@,
                ).contains(x),
            forall|k: int, d: Seq<char>|
                0 <= k < visited@.len() && #[trigger] deps_of(g, visited@[k]@).contains(d)
                    ==> str_views(visited@).contains(d) || str_views(stack@).contains(d),
            str_views(visited@).no_duplicates(),
            forall|k: int| 0 <= k < visited@.len() ==> uni.contains(#[trigger] visited@[k]@),
            forall|k: int| 0 <= k < stack@.len() ==> uni.contains(#[trigger] stack@[k]@),
            uni.finite(),
            visited@.len() <= uni.len(),
        decreases uni.len() - visited@.len(), stack@.len(),
    {
        let ghost old_visited = visited@;
        let ghost old_stack = stack@;
        let dep = stack.pop().unwrap();
        assert(dep@ == old_stack.last()@);
        assert(spec_reaches(g, starts, dep@)) by {
            assert(old_stack[old_stack.len() - 1]@ == dep@);
        }
        if str_eq(dep.as_str(), task_id) {
            return true;
        }
        if !contains_str(&visited, dep.as_str()) {
            visited.push(dep.clone());
            proof {
                // the new visited sequence keeps its properties
                assert(visited@ == old_visited.push(dep));
                assert(str_views(visited@) =~= str_views(old_visited).push(dep@));
                assert(str_views(visited@).no_duplicates());
                // the cardinality bound moves with the new element
                str_views(visited@).unique_seq_to_set();
                assert forall|x: Seq<char>|
                    str_views(visited@).to_set().contains(x) implies uni.contains(x) by {
                    let k = choose|k: int|
                        0 <= k < visited@.len() && str_views(visited@)[k] == x;
                    if k < old_visited.len() {
                        assert(uni.contains(old_visited[k]@));
                    } else {
                        assert(x == dep@);
                        assert(uni.contains(old_stack[old_stack.len() - 1]@));
                    }
                }
                lemma_len_subset(str_views(visited@).to_set(), uni);
            }
            let deps = find_deps(all_tasks, dep.as_str());
            match deps {
                Some(ds) => {
                    let mut j: usize = 0;
                    while j < ds.len()
                        invariant
                            j <= ds@.len(),
                            old_stack.len() >= 1,
                            deps_of(g, dep@) == str_views(ds@),
                            spec_reaches(g, starts, dep@),
                            stack@.len() == old_stack.len() - 1 + j,
                            forall|k: int|
                                0 <= k < old_stack.len() - 1 ==> stack@[k] == old_stack[k],
                            forall|k: int|
                                old_stack.len() - 1 <= k < stack@.len() ==> stack@[k]@ == ds@[
                                    k - (old_stack.len() - 1)
                                ]@,
                        decreases ds@.len() - j,
                    {
                        stack.push(ds[j].clone());
                        j = j + 1;
                    }
                    proof {
                        lemma_push_all_facts(
                            g,
                            starts,
                            target,
                            uni,
                            old_visited,
                            old_stack,
                            visited@,
                            stack@,
                            dep,
                            str_views(ds@),
                        );
                    }
                },
                None => {
                    proof {
                        lemma_push_all_facts(
                            g,
                            starts,
                            target,
                            uni,
                            old_visited,
                            old_stack,
                            visited@,
                            stack@,
                            dep,
                            Seq::empty(),
                        );
                    }
                },
            }
        } else {
            proof {
                let k = choose|k: int|
                    0 <= k < old_visited.len() && str_views(old_visited)[k] == dep@;
                assert forall|x: Seq<char>|
                    starts.contains(x) implies str_views(visited@).contains(x) || str_views(
                    stack@,
                ).contains(x) by {
                    if str_views(old_stack).contains(x) {
                        let m = choose|m: int|
                            0 <= m < old_stack.len() && str_views(old_stack)[m] == x;
                        if m < old_stack.len() - 1 {
                            assert(str_views(stack@)[m] == x);
                        } else {
                            assert(x == dep@);
                            assert(str_views(visited@)[k] == x);
                        }
                    }
                }
                assert forall|k2: int, d: Seq<char>|
                    0 <= k2 < visited@.len() && #[trigger] deps_of(g, visited@[k2]@).contains(d)
                        implies str_views(visited@).contains(d) || str_views(stack@).contains(
                    d,
                ) by {
                    if str_views(old_stack).contains(d) {
                        let m = choose|m: int|
                            0 <= m < old_stack.len() && str_views(old_stack)[m] == d;
                        if m < old_stack.len() - 1 {
                            assert(str_views(stack@)[m] == d);
                        } else {
                            assert(d == dep@);
                            assert(str_views(visited@).contains(d));
                        }
                    }
                }
            }
        }
    }

    proof {
        let vs = str_views(visited@);
        assert forall|k: int, d: Seq<char>|
            0 <= k < vs.len() && #[trigger] deps_of(g, vs[k]).contains(d) implies vs.contains(
            d,
        ) by {
            assert(deps_of(g, visited@[k]@).contains(d));
        }
        if spec_reaches(g, starts, target) {
            let p = choose|p: Seq<Seq<char>>|
                is_path(g, p) && starts.contains(p[0]) && p.last() == target;
            assert(vs.contains(p[0]));
            lemma_path_stays_closed(g, vs, p);
            let k = choose|k: int| 0 <= k < vs.len() && vs[k] == target;
            assert(visited@[k]@ == target);
            assert(false);
        }
    }
    false
}

/// After a fresh node's prerequisites are all pushed, every loop
/// invariant of the search holds again.
#[verifier::rlimit(60)]
proof fn lemma_push_all_facts(
    g: Seq<(Seq<char>, Seq<Seq<char>>)>,
    starts: Seq<Seq<char>>,
    target: Seq<char>,
    uni: Set<Seq<char>>,
    old_visited: Seq<String>,
    old_stack: Seq<String>,
    new_visited: Seq<String>,
    new_stack: Seq<String>,
    dep: String,
    ds: Seq<Seq<char>>,
)
    requires
        deps_of(g, dep@) == ds,
        spec_reaches(g, starts, dep@),
        dep@ != target,
        new_visited == old_visited.push(dep),
        new_stack.len() == old_stack.len() - 1 + ds.len(),
        old_stack.len() >= 1,
        old_stack[old_stack.len() - 1]@ == dep@,
        uni == (starts + all_deps(g)).to_set(),
        forall|k: int| 0 <= k < old_stack.len() - 1 ==> new_stack[k] == old_stack[k],
        forall|k: int|
            old_stack.len() - 1 <= k < new_stack.len() ==> new_stack[k]@ == ds[k - (
            old_stack.len() - 1)],
        forall|k: int| 0 <= k < old_stack.len() ==> spec_reaches(g, starts, #[trigger] old_stack[k]@),
        forall|k: int|
            0 <= k < old_visited.len() ==> spec_reaches(g, starts, #[trigger] old_visited[k]@),
        forall|k: int| 0 <= k < old_visited.len() ==> #[trigger] old_visited[k]@ != target,
        forall|x: Seq<char>|
            starts.contains(x) ==> str_views(old_visited).contains(x) || str_views(
                old_stack,
            ).contains(x),
        forall|k: int, d: Seq<char>|
            0 <= k < old_visited.len() && #[trigger] deps_of(g, old_visited[k]@).contains(d)
                ==> str_views(old_visited).contains(d) || str_views(old_stack).contains(d),
        forall|k: int| 0 <= k < old_visited.len() ==> uni.contains(#[trigger] old_visited[k]@),
        forall|k: int| 0 <= k < old_stack.len() ==> uni.contains(#[trigger] old_stack[k]@),
    ensures
        forall|k: int| 0 <= k < new_stack.len() ==> spec_reaches(g, starts, #[trigger] new_stack[k]@),
        forall|k: int|
            0 <= k < new_visited.len() ==> spec_reaches(g, starts, #[trigger] new_visited[k]@),
        forall|k: int| 0 <= k < new_visited.len() ==> #[trigger] new_visited[k]@ != target,
        forall|x: Seq<char>|
            starts.contains(x) ==> str_views(new_visited).contains(x) || str_views(
                new_stack,
            ).contains(x),
        forall|k: int, d: Seq<char>|
            0 <= k < new_visited.len() && #[trigger] deps_of(g, new_visited[k]@).contains(d)
                ==> str_views(new_visited).contains(d) || str_views(new_stack).contains(d),
        forall|k: int| 0 <= k < new_visited.len() ==> uni.contains(#[trigger] new_visited[k]@),
        forall|k: int| 0 <= k < new_stack.len() ==> uni.contains(#[trigger] new_stack[k]@),
{
    let base = old_stack.len() - 1;
    assert forall|k: int| 0 <= k < new_stack.len() implies spec_reaches(
        g,
        starts,
        #[trigger] new_stack[k]@,
    ) by {
        if k < base {
            assert(old_stack[k]@ == new_stack[k]@);
        } else {
            assert(ds.contains(new_stack[k]@)) by {
                assert(ds[k - base] == new_stack[k]@);
            }
            lemma_reach_step(g, starts, dep@, new_stack[k]@);
        }
    }
    assert forall|x: Seq<char>| starts.contains(x) implies str_views(new_visited).contains(x)
        || str_views(new_stack).contains(x) by {
        if str_views(old_visited).contains(x) {
            let m = choose|m: int|
                0 <= m < old_visited.len() && str_views(old_visited)[m] == x;
            assert(str_views(new_visited)[m] == x);
        } else if str_views(old_stack).contains(x) {
            let m = choose|m: int| 0 <= m < old_stack.len() && str_views(old_stack)[m] == x;
            if m < base {
                assert(str_views(new_stack)[m] == x);
            } else {
                assert(x == dep@);
                assert(str_views(new_visited)[old_visited.len() as int] == x);
            }
        }
    }
    assert forall|k: int, d: Seq<char>|
        0 <= k < new_visited.len() && #[trigger] deps_of(g, new_visited[k]@).contains(d)
            implies str_views(new_visited).contains(d) || str_views(new_stack).contains(d) by {
        if k < old_visited.len() {
            assert(deps_of(g, old_visited[k]@).contains(d));
            if str_views(old_visited).contains(d) {
                let m = choose|m: int|
                    0 <= m < old_visited.len() && str_views(old_visited)[m] == d;
                assert(str_views(new_visited)[m] == d);
            } else if str_views(old_stack).contains(d) {
                let m = choose|m: int|
                    0 <= m < old_stack.len() && str_views(old_stack)[m] == d;
                if m < base {
                    assert(str_views(new_stack)[m] == d);
                } else {
                    assert(d == dep@);
                    assert(str_views(new_visited)[old_visited.len() as int] == d);
                }
            }
        } else {
            assert(new_visited[k]@ == dep@);
            let m = choose|m: int| 0 <= m < ds.len() && ds[m] == d;
            assert(str_views(new_stack)[base + m] == d);
        }
    }
    assert forall|k: int| 0 <= k < new_visited.len() implies uni.contains(
        #[trigger] new_visited[k]@,
    ) by {
        if k == old_visited.len() {
            assert(uni.contains(old_stack[old_stack.len() - 1]@));
            assert(new_visited[k]@ == dep@);
        }
    }
    assert forall|k: int| 0 <= k < new_stack.len() implies uni.contains(
        #[trigger] new_stack[k]@,
    ) by {
        if k >= base {
            assert(ds[k - base] == new_stack[k]@);
            lemma_deps_sub_all(g, dep@, new_stack[k]@);
            let m = choose|m: int|
                0 <= m < all_deps(g).len() && all_deps(g)[m] == new_stack[k]@;
            assert((starts + all_deps(g))[starts.len() + m] == new_stack[k]@);
        } else {
            assert(uni.contains(old_stack[k]@));
        }
    }
}

} // verus!
