//! Which defined functions a module can reach, following calls from its entry points.
//!
//! Functions are numbered as WebAssembly numbers them: the imports first, then the defined
//! functions. Direct calls are edges of a graph; a function that calls indirectly may reach
//! every function that a table or a `ref.func` references.

use vstd::prelude::*;

use crate::decode::decode_module_for_analysis;
use crate::errors::TranslateError;
use crate::module::{CodeBody, WasmModule, WasmOp};

verus! {

/// The call graph of the defined functions of a module.
#[derive(Debug, Clone)]
pub struct FunctionDependencyGraph {
    /// The number of imported functions; defined function `d` is function `import_function_count + d`.
    pub import_function_count: usize,
    /// The functions each defined function calls directly.
    pub direct_edges: Vec<Vec<u32>>,
    /// Whether each defined function calls indirectly.
    pub indirect_edges: Vec<bool>,
    /// The functions that an indirect call may reach.
    pub indirect_roots: Vec<u32>,
}

impl FunctionDependencyGraph {
    /// Both per-function tables have an entry for each defined function.
    pub open spec fn wf(&self) -> bool {
        self.direct_edges@.len() == self.indirect_edges@.len()
    }

    /// Whether `f` is a defined function.
    pub open spec fn defined(&self, f: int) -> bool {
        self.import_function_count <= f < self.import_function_count + self.direct_edges@.len()
    }

    /// Whether the defined function `f` calls `c` directly.
    pub open spec fn calls(&self, f: int, c: u32) -> bool {
        self.defined(f) && self.direct_edges@[f - self.import_function_count]@.contains(c)
    }

    /// Whether the defined function `f` calls indirectly.
    pub open spec fn calls_indirect(&self, f: int) -> bool {
        self.defined(f) && self.indirect_edges@[f - self.import_function_count]
    }

    /// Whether `s` holds every defined root, every defined function that a member calls
    /// directly, and, once a member calls indirectly, every defined function an indirect call
    /// may reach.
    pub open spec fn closed(&self, roots: Seq<u32>, s: Set<u32>) -> bool {
        &&& forall|r: u32| roots.contains(r) && self.defined(r as int) ==> s.contains(r)
        &&& forall|f: u32, c: u32|
            s.contains(f) && #[trigger] self.calls(f as int, c) && self.defined(c as int)
                ==> s.contains(c)
        &&& (exists|f: u32| s.contains(f) && #[trigger] self.calls_indirect(f as int)) ==> forall|
            t: u32,
        | #[trigger] self.indirect_roots@.contains(t) && self.defined(t as int) ==> s.contains(t)
    }
}

impl FunctionDependencyGraph {
    /// Whether the function `f` is in `init`, calls a non-imported member of `init` directly,
    /// or calls indirectly while an indirect call may reach a non-imported member of `init`.
    pub open spec fn touches(&self, f: u32, init: Seq<u32>) -> bool {
        ||| init.contains(f)
        ||| exists|c: u32|
            #[trigger] self.calls(f as int, c) && c >= self.import_function_count && init.contains(c)
        ||| self.calls_indirect(f as int) && exists|t: u32|
            #[trigger] self.indirect_roots@.contains(t) && t >= self.import_function_count
                && init.contains(t)
    }

    /// Whether running `root` may run a function of `direct_init_functions` (functions that
    /// need the runtime initialised): `root` is one, or some function that `root` reaches
    /// through calls touches one.
    pub fn function_requires_runtime_init(&self, root: u32, direct_init_functions: &Vec<u32>) -> (r:
        bool)
        requires
            self.wf(),
        ensures
            r == (direct_init_functions@.contains(root) || (root >= self.import_function_count
                && forall|s: Set<u32>|
                #[trigger] self.closed(seq![root], s) ==> exists|f: u32|
                    s.contains(f) && #[trigger] self.touches(f, direct_init_functions@))),
    {
        if vec_contains(direct_init_functions, root) {
            return true;
        }
        if (root as usize) < self.import_function_count {
            return false;
        }
        let roots: Vec<u32> = vec![root];
        let reach = reachable_from_roots(self, &roots);
        proof {
            assert(roots@ =~= seq![root]);
        }
        let mut i: usize = 0;
        while i < reach.len()
            invariant
                i <= reach@.len(),
                self.wf(),
                roots@ == seq![root],
                root >= self.import_function_count,
                !direct_init_functions@.contains(root),
                forall|f: u32| reach@.contains(f) ==> self.defined(f as int),
                self.closed(roots@, reach@.to_set()),
                forall|s: Set<u32>| self.closed(roots@, s) ==> reach@.to_set().subset_of(s),
                forall|k: int| 0 <= k < i ==> !self.touches(#[trigger] reach@[k], direct_init_functions@),
            decreases reach@.len() - i,
        {
            let f = reach[i];
            if self.touches_exec(f, direct_init_functions) {
                proof {
                    assert(reach@.contains(f));
                    assert forall|s: Set<u32>| #[trigger] self.closed(seq![root], s) implies exists|g: u32|
                        s.contains(g) && #[trigger] self.touches(g, direct_init_functions@) by {
                        assert(self.closed(roots@, s));
                        assert(reach@.to_set().subset_of(s));
                        assert(reach@.to_set().contains(f));
                        assert(s.contains(f) && self.touches(f, direct_init_functions@));
                    }
                }
                return true;
            }
            i = i + 1;
        }
        proof {
            let s = reach@.to_set();
            assert(self.closed(seq![root], s));
            assert forall|f: u32| s.contains(f) implies !#[trigger] self.touches(f, direct_init_functions@) by {
                let k = reach@.index_of(f);
                assert(reach@[k] == f);
            }
        }
        false
    }

    /// Whether the defined function `f` touches a member of `init`, as
    /// [`FunctionDependencyGraph::touches`] says.
    fn touches_exec(&self, f: u32, init: &Vec<u32>) -> (r: bool)
        requires
            self.wf(),
            self.defined(f as int),
        ensures
            r == self.touches(f, init@),
    {
        if vec_contains(init, f) {
            return true;
        }
        let d = (f as usize) - self.import_function_count;
        let callees = &self.direct_edges[d];
        let mut j: usize = 0;
        while j < callees.len()
            invariant
                j <= callees@.len(),
                self.defined(f as int),
                d == f - self.import_function_count,
                callees@ == self.direct_edges@[d as int]@,
                forall|k: int|
                    0 <= k < j ==> !((#[trigger] callees@[k]) >= self.import_function_count
                        && init@.contains(callees@[k])),
            decreases callees@.len() - j,
        {
            let c = callees[j];
            if (c as usize) >= self.import_function_count && vec_contains(init, c) {
                proof {
                    assert(self.calls(f as int, c));
                }
                return true;
            }
            j = j + 1;
        }
        proof {
            assert forall|c: u32|
                #[trigger] self.calls(f as int, c) && c >= self.import_function_count implies !init@.contains(c) by {
                let k = callees@.index_of(c);
                assert(callees@[k] == c);
            }
        }
        if !self.indirect_edges[d] {
            return false;
        }
        let refs = &self.indirect_roots;
        let mut k: usize = 0;
        while k < refs.len()
            invariant
                k <= refs@.len(),
                refs@ == self.indirect_roots@,
                self.calls_indirect(f as int),
                forall|q: int|
                    0 <= q < k ==> !((#[trigger] refs@[q]) >= self.import_function_count
                        && init@.contains(refs@[q])),
            decreases refs@.len() - k,
        {
            let t = refs[k];
            if (t as usize) >= self.import_function_count && vec_contains(init, t) {
                proof {
                    assert(refs@[k as int] == t);
                    assert(self.indirect_roots@.contains(t) && t >= self.import_function_count
                        && init@.contains(t));
                }
                return true;
            }
            k = k + 1;
        }
        proof {
            assert forall|t: u32|
                #[trigger] self.indirect_roots@.contains(t) && t >= self.import_function_count implies !init@.contains(t) by {
                let q = refs@.index_of(t);
                assert(refs@[q] == t);
            }
        }
        false
    }
}

/// Whether `v` holds `x`.
fn vec_contains(v: &Vec<u32>, x: u32) -> (r: bool)
    ensures
        r == v@.contains(x),
{
    let mut i: usize = 0;
    while i < v.len()
        invariant
            i <= v@.len(),
            forall|k: int| 0 <= k < i ==> v@[k] != x,
        decreases v@.len() - i,
    {
        if v[i] == x {
            assert(v@[i as int] == x);
            return true;
        }
        i = i + 1;
    }
    false
}

/// The number of unset flags.
pub open spec fn unmarked(s: Seq<bool>) -> nat
    decreases s.len(),
{
    if s.len() == 0 {
        0
    } else {
        unmarked(s.drop_last()) + if s.last() {
            0nat
        } else {
            1nat
        }
    }
}

proof fn lemma_unmarked_set(s: Seq<bool>, i: int)
    requires
        0 <= i < s.len(),
        !s[i],
    ensures
        unmarked(s.update(i, true)) + 1 == unmarked(s),
    decreases s.len(),
{
    if i < s.len() - 1 {
        lemma_unmarked_set(s.drop_last(), i);
        assert(s.update(i, true).drop_last() =~= s.drop_last().update(i, true));
    } else {
        assert(s.update(i, true).drop_last() =~= s.drop_last());
    }
}

/// Whether `f` is a defined function whose flag is set.
pub open spec fn marked(g: FunctionDependencyGraph, visited: Seq<bool>, f: int) -> bool {
    g.defined(f) && visited[f - g.import_function_count]
}

/// Whether every set flag belongs to a function index.
pub open spec fn flags_indexable(g: FunctionDependencyGraph, visited: Seq<bool>) -> bool {
    forall|d: int| 0 <= d < visited.len() && #[trigger] visited[d] ==> g.import_function_count + d <= u32::MAX
}

/// Marks the defined function `c` and adds it to the work list, unless it is marked already.
fn visit(
    g: &FunctionDependencyGraph,
    c: u32,
    visited: &mut Vec<bool>,
    work: &mut Vec<u32>,
)
    requires
        old(visited)@.len() == g.direct_edges@.len(),
        g.defined(c as int),
    ensures
        final(visited)@ == old(visited)@.update(c - g.import_function_count, true),
        marked(*g, old(visited)@, c as int) ==> final(work)@ == old(work)@ && final(visited)@ == old(visited)@,
        !marked(*g, old(visited)@, c as int) ==> final(work)@ == old(work)@.push(c) && unmarked(
            final(visited)@,
        ) + 1 == unmarked(old(visited)@),
{
    let d = (c as usize) - g.import_function_count;
    if !visited[d] {
        proof {
            lemma_unmarked_set(visited@, d as int);
        }
        visited.set(d, true);
        work.push(c);
    } else {
        assert(visited@.update(d as int, true) =~= visited@);
    }
}

/// The defined functions that can run, starting from `roots`: the least set that
/// [`FunctionDependencyGraph::closed`] describes, in increasing order.
pub fn reachable_from_roots(g: &FunctionDependencyGraph, roots: &Vec<u32>) -> (r: Vec<u32>)
    requires
        g.wf(),
    ensures
        forall|f: u32| r@.contains(f) ==> g.defined(f as int),
        g.closed(roots@, r@.to_set()),
        forall|s: Set<u32>| g.closed(roots@, s) ==> r@.to_set().subset_of(s),
{
    let n = g.direct_edges.len();
    let ic = g.import_function_count;
    let ghost rs = roots@;
    let mut visited: Vec<bool> = vec![false; n];
    let mut work: Vec<u32> = Vec::new();
    let ghost mut done: Set<u32> = Set::empty();

    let mut i: usize = 0;
    while i < roots.len()
        invariant
            i <= roots@.len(),
            rs == roots@,
            g.wf(),
            n == g.direct_edges@.len(),
            ic == g.import_function_count,
            visited@.len() == n,
            flags_indexable(*g, visited@),
            forall|j: int| 0 <= j < i && g.defined(roots@[j] as int) ==> marked(
                *g,
                visited@,
                roots@[j] as int,
            ),
            forall|k: int| 0 <= k < work@.len() ==> marked(*g, visited@, #[trigger] work@[k] as int),
            forall|x: u32| #[trigger] marked(*g, visited@, x as int) ==> work@.contains(x),
            forall|x: u32|
                #[trigger] marked(*g, visited@, x as int) ==> forall|s: Set<u32>|
                    #[trigger] g.closed(rs, s) ==> s.contains(x),
        decreases roots@.len() - i,
    {
        let root = roots[i];
        if (root as usize) >= ic && (root as usize) - ic < n {
            proof {
                assert(roots@.contains(root));
            }
            let ghost before = visited@;
            let ghost wbefore = work@;
            visit(g, root, &mut visited, &mut work);
            proof {
                assert forall|x: u32| #[trigger] marked(*g, visited@, x as int) implies work@.contains(x)
                    && forall|s: Set<u32>| #[trigger] g.closed(rs, s) ==> s.contains(x) by {
                    if x != root {
                        assert(marked(*g, before, x as int));
                        assert(wbefore.contains(x));
                        if !marked(*g, before, root as int) {
                            assert(work@[wbefore.index_of(x)] == x);
                        }
                    } else {
                        if !marked(*g, before, root as int) {
                            assert(work@[work@.len() - 1] == root);
                        } else {
                            assert(wbefore.contains(x));
                        }
                    }
                }
            }
        }
        i = i + 1;
    }

    let mut table_included = false;
    while work.len() > 0
        invariant
            rs == roots@,
            g.wf(),
            n == g.direct_edges@.len(),
            ic == g.import_function_count,
            visited@.len() == n,
            flags_indexable(*g, visited@),
            forall|r: u32| roots@.contains(r) && g.defined(r as int) ==> marked(*g, visited@, r as int),
            forall|k: int| 0 <= k < work@.len() ==> marked(*g, visited@, #[trigger] work@[k] as int),
            forall|x: u32| #[trigger] marked(*g, visited@, x as int) ==> done.contains(x) || work@.contains(x),
            forall|x: u32|
                #[trigger] marked(*g, visited@, x as int) ==> forall|s: Set<u32>|
                    #[trigger] g.closed(rs, s) ==> s.contains(x),
            forall|x: u32, c: u32|
                done.contains(x) && #[trigger] g.calls(x as int, c) && g.defined(c as int)
                    ==> marked(*g, visited@, c as int),
            forall|x: u32| done.contains(x) && #[trigger] g.calls_indirect(x as int) ==> table_included,
            forall|x: u32| #[trigger] done.contains(x) ==> marked(*g, visited@, x as int),
            table_included ==> forall|t: u32|
                #[trigger] g.indirect_roots@.contains(t) && g.defined(t as int) ==> marked(
                    *g,
                    visited@,
                    t as int,
                ),
        decreases unmarked(visited@), work@.len(),
    {
        let ghost u0 = unmarked(visited@);
        let ghost w0 = work@.len();
        let ghost wprev = work@;
        let f = work.pop().unwrap();
        let d = (f as usize) - ic;
        proof {
            assert(wprev[wprev.len() - 1] == f);
            assert(marked(*g, visited@, f as int));
            assert forall|x: u32| #[trigger] marked(*g, visited@, x as int) implies done.contains(x)
                || work@.contains(x) || x == f by {
                if !done.contains(x) {
                    let q = wprev.index_of(x);
                    if q < wprev.len() - 1 {
                        assert(work@[q] == x);
                    }
                }
            }
        }
        let callees = &g.direct_edges[d];
        let mut j: usize = 0;
        while j < callees.len()
            invariant
                rs == roots@,
                g.wf(),
                n == g.direct_edges@.len(),
                ic == g.import_function_count,
                visited@.len() == n,
                flags_indexable(*g, visited@),
                g.defined(f as int),
                d == f - ic,
                callees@ == g.direct_edges@[d as int]@,
                j <= callees@.len(),
                marked(*g, visited@, f as int),
                unmarked(visited@) + work@.len() == u0 + w0 - 1,
                unmarked(visited@) <= u0,
                forall|r: u32| roots@.contains(r) && g.defined(r as int) ==> marked(*g, visited@, r as int),
                forall|k: int| 0 <= k < work@.len() ==> marked(*g, visited@, #[trigger] work@[k] as int),
                forall|x: u32| #[trigger] marked(*g, visited@, x as int) ==> done.contains(x) || work@.contains(x) || x == f,
                forall|x: u32|
                    #[trigger] marked(*g, visited@, x as int) ==> forall|s: Set<u32>|
                        #[trigger] g.closed(rs, s) ==> s.contains(x),
                forall|x: u32, c: u32|
                    done.contains(x) && #[trigger] g.calls(x as int, c) && g.defined(c as int)
                        ==> marked(*g, visited@, c as int),
                forall|x: u32| done.contains(x) && #[trigger] g.calls_indirect(x as int) ==> table_included,
                forall|x: u32| #[trigger] done.contains(x) ==> marked(*g, visited@, x as int),
                forall|k: int| 0 <= k < j && g.defined(callees@[k] as int) ==> marked(*g, visited@, callees@[k] as int),
                table_included ==> forall|t: u32|
                    #[trigger] g.indirect_roots@.contains(t) && g.defined(t as int) ==> marked(
                        *g,
                        visited@,
                        t as int,
                    ),
            decreases callees@.len() - j,
        {
            let c = callees[j];
            if (c as usize) >= ic && (c as usize) - ic < n {
                let ghost before = visited@;
                let ghost wbefore = work@;
                proof {
                    assert(g.calls(f as int, c));
                    assert forall|s: Set<u32>| #[trigger] g.closed(rs, s) implies s.contains(c) by {
                        assert(s.contains(f));
                    }
                }
                visit(g, c, &mut visited, &mut work);
                proof {
                    assert forall|x: u32| #[trigger] marked(*g, visited@, x as int) implies (done.contains(x)
                        || work@.contains(x) || x == f) && forall|s: Set<u32>|
                        #[trigger] g.closed(rs, s) ==> s.contains(x) by {
                        if x != c {
                            assert(marked(*g, before, x as int));
                            if wbefore.contains(x) && !marked(*g, before, c as int) {
                                assert(work@[wbefore.index_of(x)] == x);
                            }
                        } else if !marked(*g, before, c as int) {
                            assert(work@[work@.len() - 1] == c);
                        }
                    }
                    assert forall|k: int| 0 <= k < work@.len() implies marked(*g, visited@, #[trigger] work@[k] as int) by {
                        if k < wbefore.len() {
                            assert(marked(*g, before, wbefore[k] as int));
                        }
                    }
                }
            }
            j = j + 1;
        }
        if g.indirect_edges[d] && !table_included {
            table_included = true;
            let refs = &g.indirect_roots;
            let mut k: usize = 0;
            while k < refs.len()
                invariant
                    rs == roots@,
                    g.wf(),
                    n == g.direct_edges@.len(),
                    ic == g.import_function_count,
                    visited@.len() == n,
                    flags_indexable(*g, visited@),
                    g.defined(f as int),
                    g.calls_indirect(f as int),
                    refs@ == g.indirect_roots@,
                    k <= refs@.len(),
                    marked(*g, visited@, f as int),
                    table_included,
                    unmarked(visited@) + work@.len() == u0 + w0 - 1,
                    unmarked(visited@) <= u0,
                unmarked(visited@) <= u0,
                    forall|r: u32| roots@.contains(r) && g.defined(r as int) ==> marked(*g, visited@, r as int),
                    forall|q: int| 0 <= q < work@.len() ==> marked(*g, visited@, #[trigger] work@[q] as int),
                    forall|x: u32| #[trigger] marked(*g, visited@, x as int) ==> done.contains(x) || work@.contains(x) || x == f,
                    forall|x: u32|
                        #[trigger] marked(*g, visited@, x as int) ==> forall|s: Set<u32>|
                            #[trigger] g.closed(rs, s) ==> s.contains(x),
                    forall|x: u32, c: u32|
                        done.contains(x) && #[trigger] g.calls(x as int, c) && g.defined(c as int)
                            ==> marked(*g, visited@, c as int),
                    forall|x: u32| #[trigger] done.contains(x) ==> marked(*g, visited@, x as int),
                    forall|c: u32| #[trigger] g.calls(f as int, c) && g.defined(c as int) ==> marked(*g, visited@, c as int),
                    forall|q: int| 0 <= q < k && g.defined(refs@[q] as int) ==> marked(*g, visited@, refs@[q] as int),
                decreases refs@.len() - k,
            {
                let t = refs[k];
                if (t as usize) >= ic && (t as usize) - ic < n {
                    let ghost before = visited@;
                    let ghost wbefore = work@;
                    proof {
                        assert forall|s: Set<u32>| #[trigger] g.closed(rs, s) implies s.contains(t) by {
                            assert(s.contains(f));
                            assert(g.indirect_roots@.contains(t));
                        }
                    }
                    visit(g, t, &mut visited, &mut work);
                    proof {
                        assert forall|x: u32| #[trigger] marked(*g, visited@, x as int) implies (done.contains(x)
                            || work@.contains(x) || x == f) && forall|s: Set<u32>|
                            #[trigger] g.closed(rs, s) ==> s.contains(x) by {
                            if x != t {
                                assert(marked(*g, before, x as int));
                                if wbefore.contains(x) && !marked(*g, before, t as int) {
                                    assert(work@[wbefore.index_of(x)] == x);
                                }
                            } else if !marked(*g, before, t as int) {
                                assert(work@[work@.len() - 1] == t);
                            }
                        }
                        assert forall|q: int| 0 <= q < work@.len() implies marked(*g, visited@, #[trigger] work@[q] as int) by {
                            if q < wbefore.len() {
                                assert(marked(*g, before, wbefore[q] as int));
                            }
                        }
                    }
                }
                k = k + 1;
            }
            proof {
                assert forall|t: u32|
                    #[trigger] g.indirect_roots@.contains(t) && g.defined(t as int) implies marked(
                        *g,
                        visited@,
                        t as int,
                    ) by {
                    let q = g.indirect_roots@.index_of(t);
                }
            }
        }
        proof {
            assert forall|c: u32| #[trigger] g.calls(f as int, c) && g.defined(c as int) implies marked(
                *g,
                visited@,
                c as int,
            ) by {
                let q = callees@.index_of(c);
            }
            done = done.insert(f);
        }
    }

    let mut out: Vec<u32> = Vec::new();
    let mut e: usize = 0;
    while e < n
        invariant
            e <= n,
            n == g.direct_edges@.len(),
            ic == g.import_function_count,
            visited@.len() == n,
            flags_indexable(*g, visited@),
            forall|x: u32| #[trigger] out@.contains(x) <==> (marked(*g, visited@, x as int) && x < ic + e),
        decreases n - e,
    {
        if visited[e] {
            proof {
                assert(visited@[e as int]);
                assert(ic + e <= u32::MAX);
            }
            let x = (ic + e) as u32;
            assert(marked(*g, visited@, x as int));
            let ghost prev = out@;
            out.push(x);
            proof {
                assert forall|y: u32| #[trigger] out@.contains(y) <==> (marked(*g, visited@, y as int) && y < ic + e + 1) by {
                    if y == x {
                        assert(out@[prev.len() as int] == y);
                    } else {
                        if prev.contains(y) {
                            let q = prev.index_of(y);
                            assert(out@[q] == y);
                        }
                        if out@.contains(y) {
                            let q = out@.index_of(y);
                            assert(q < prev.len());
                            assert(prev[q] == y);
                        }
                    }
                }
            }
        } else {
            proof {
                assert forall|y: u32| out@.contains(y) <==> (marked(*g, visited@, y as int) && y < ic + e + 1) by {
                    if y == ic + e {
                        assert(!visited@[e as int]);
                    }
                }
            }
        }
        e = e + 1;
    }
    proof {
        assert forall|x: u32| out@.to_set().contains(x) <==> marked(*g, visited@, x as int) by {}
        assert(done =~= done);
        assert forall|x: u32| #[trigger] marked(*g, visited@, x as int) implies done.contains(x) by {
            if !done.contains(x) {
                assert(work@.contains(x));
            }
        }
    }
    out
}


/// The functions that `call` instructions in `ops` name, in order.
pub open spec fn call_targets(ops: Seq<WasmOp>) -> Seq<u32>
    decreases ops.len(),
{
    if ops.len() == 0 {
        Seq::empty()
    } else {
        call_targets(ops.drop_last()) + match ops.last() {
            WasmOp::Call(f) => seq![f],
            _ => Seq::empty(),
        }
    }
}

/// Whether `g` is the call graph of `m`.
pub open spec fn describes(g: FunctionDependencyGraph, m: WasmModule) -> bool {
    &&& g.import_function_count == m.imports@.len()
    &&& g.direct_edges@.len() == m.bodies@.len()
    &&& g.indirect_edges@.len() == m.bodies@.len()
    &&& forall|d: int|
        0 <= d < m.bodies@.len() ==> #[trigger] g.direct_edges@[d]@ == call_targets(
            m.bodies@[d].ops@,
        )
    &&& forall|d: int|
        0 <= d < m.bodies@.len() ==> #[trigger] g.indirect_edges@[d] == m.bodies@[d].calls_indirect
    &&& g.indirect_roots@ == m.element_functions@ + m.ref_functions@
}

/// The entry points of a module: its function exports, then its start function.
pub open spec fn entry_points(m: WasmModule) -> Seq<u32> {
    m.exports@.map_values(|e: crate::module::FunctionExport| e.index) + match m.start {
        Some(f) => seq![f],
        None => Seq::empty(),
    }
}

/// The functions that the `call` instructions of a body name.
fn body_calls(body: &CodeBody) -> (r: Vec<u32>)
    ensures
        r@ == call_targets(body.ops@),
{
    let mut out: Vec<u32> = Vec::new();
    let mut i: usize = 0;
    while i < body.ops.len()
        invariant
            i <= body.ops@.len(),
            out@ == call_targets(body.ops@.subrange(0, i as int)),
        decreases body.ops@.len() - i,
    {
        proof {
            assert(body.ops@.subrange(0, i + 1).drop_last() =~= body.ops@.subrange(0, i as int));
        }
        match &body.ops[i] {
            WasmOp::Call(f) => {
                out.push(*f);
            },
            _ => {},
        }
        i = i + 1;
        proof {
            assert(out@ =~= call_targets(body.ops@.subrange(0, i as int)));
        }
    }
    assert(body.ops@.subrange(0, body.ops@.len() as int) =~= body.ops@);
    out
}

/// Builds the call graph of a module.
pub fn analyze_function_dependency_graph(m: &WasmModule) -> (g: FunctionDependencyGraph)
    ensures
        describes(g, *m),
        g.wf(),
{
    let mut direct_edges: Vec<Vec<u32>> = Vec::new();
    let mut indirect_edges: Vec<bool> = Vec::new();
    let mut d: usize = 0;
    while d < m.bodies.len()
        invariant
            d <= m.bodies@.len(),
            direct_edges@.len() == d,
            indirect_edges@.len() == d,
            forall|k: int| 0 <= k < d ==> #[trigger] direct_edges@[k]@ == call_targets(m.bodies@[k].ops@),
            forall|k: int| 0 <= k < d ==> #[trigger] indirect_edges@[k] == m.bodies@[k].calls_indirect,
        decreases m.bodies@.len() - d,
    {
        direct_edges.push(body_calls(&m.bodies[d]));
        indirect_edges.push(m.bodies[d].calls_indirect);
        d = d + 1;
    }
    let mut indirect_roots: Vec<u32> = Vec::new();
    let mut i: usize = 0;
    while i < m.element_functions.len()
        invariant
            i <= m.element_functions@.len(),
            indirect_roots@ == m.element_functions@.subrange(0, i as int),
        decreases m.element_functions@.len() - i,
    {
        indirect_roots.push(m.element_functions[i]);
        i = i + 1;
        assert(indirect_roots@ =~= m.element_functions@.subrange(0, i as int));
    }
    let mut j: usize = 0;
    while j < m.ref_functions.len()
        invariant
            j <= m.ref_functions@.len(),
            indirect_roots@ == m.element_functions@ + m.ref_functions@.subrange(0, j as int),
        decreases m.ref_functions@.len() - j,
    {
        indirect_roots.push(m.ref_functions[j]);
        j = j + 1;
        assert(indirect_roots@ =~= m.element_functions@ + m.ref_functions@.subrange(0, j as int));
    }
    assert(m.ref_functions@.subrange(0, m.ref_functions@.len() as int) =~= m.ref_functions@);
    FunctionDependencyGraph {
        import_function_count: m.imports.len(),
        direct_edges,
        indirect_edges,
        indirect_roots,
    }
}

/// The entry points of a module.
fn entry_point_list(m: &WasmModule) -> (r: Vec<u32>)
    ensures
        r@ == entry_points(*m),
{
    let mut out: Vec<u32> = Vec::new();
    let mut i: usize = 0;
    while i < m.exports.len()
        invariant
            i <= m.exports@.len(),
            out@ == m.exports@.subrange(0, i as int).map_values(
                |e: crate::module::FunctionExport| e.index,
            ),
        decreases m.exports@.len() - i,
    {
        out.push(m.exports[i].index);
        i = i + 1;
        assert(out@ =~= m.exports@.subrange(0, i as int).map_values(
            |e: crate::module::FunctionExport| e.index,
        ));
    }
    assert(m.exports@.subrange(0, m.exports@.len() as int) =~= m.exports@);
    let ghost before = out@;
    match m.start {
        Some(f) => {
            out.push(f);
        },
        None => {},
    }
    assert(out@ =~= entry_points(*m));
    out
}

/// The defined functions of a module that can run: those its exports and start function reach
/// through direct calls, and, once a reachable function calls indirectly, those that element
/// segments and `ref.func` reference.
pub fn reachable_defined_functions(m: &WasmModule) -> (r: Vec<u32>)
    ensures
        forall|g: FunctionDependencyGraph|
            #[trigger] describes(g, *m) ==> {
                &&& forall|f: u32| r@.contains(f) ==> g.defined(f as int)
                &&& g.closed(entry_points(*m), r@.to_set())
                &&& forall|s: Set<u32>| g.closed(entry_points(*m), s) ==> r@.to_set().subset_of(s)
            },
{
    let g = analyze_function_dependency_graph(m);
    let roots = entry_point_list(m);
    let r = reachable_from_roots(&g, &roots);
    proof {
        assert forall|h: FunctionDependencyGraph| #[trigger] describes(h, *m) implies {
            &&& forall|f: u32| r@.contains(f) ==> h.defined(f as int)
            &&& h.closed(entry_points(*m), r@.to_set())
            &&& forall|s: Set<u32>| h.closed(entry_points(*m), s) ==> r@.to_set().subset_of(s)
        } by {
            lemma_describes_unique(g, h, *m);
            assert(g.closed(roots@, r@.to_set()));
            assert(g.closed(entry_points(*m), r@.to_set()) == h.closed(entry_points(*m), r@.to_set()));
            assert forall|s: Set<u32>| h.closed(entry_points(*m), s) implies r@.to_set().subset_of(s) by {
                assert(g.closed(entry_points(*m), s) == h.closed(entry_points(*m), s));
            }
            assert forall|f: u32| r@.contains(f) implies h.defined(f as int) by {
                assert(g.defined(f as int));
            }
            assert(h.closed(entry_points(*m), r@.to_set()));
        }
    }
    r
}

/// Two graphs that describe the same module agree on everything the reachability speaks of.
proof fn lemma_describes_unique(g: FunctionDependencyGraph, h: FunctionDependencyGraph, m: WasmModule)
    requires
        describes(g, m),
        describes(h, m),
    ensures
        g.import_function_count == h.import_function_count,
        g.direct_edges@.len() == h.direct_edges@.len(),
        forall|f: int, c: u32| g.calls(f, c) == h.calls(f, c),
        forall|f: int| g.calls_indirect(f) == h.calls_indirect(f),
        g.indirect_roots@ == h.indirect_roots@,
        forall|roots: Seq<u32>, s: Set<u32>| g.closed(roots, s) == h.closed(roots, s),
{
    assert forall|f: int, c: u32| g.calls(f, c) == h.calls(f, c) by {
        if g.defined(f) {
            let d = f - g.import_function_count;
            assert(g.direct_edges@[d]@ == h.direct_edges@[d]@);
        }
    }
    assert forall|f: int| g.calls_indirect(f) == h.calls_indirect(f) by {
        if g.defined(f) {
            let d = f - g.import_function_count;
            assert(g.indirect_edges@[d] == h.indirect_edges@[d]);
        }
    }
}

/// Decodes a module and computes its reachable defined functions, in increasing order.
pub fn analyze_reachable_defined_functions(bytes: &[u8]) -> (r: Result<Vec<u32>, TranslateError>)
    ensures
        r matches Ok(v) ==> exists|m: WasmModule| #[trigger] reachable_set_of(m, v@),
{
    let module = decode_module_for_analysis(bytes)?;
    let r: Result<Vec<u32>, TranslateError> = Ok(reachable_defined_functions(&module));
    assert(reachable_set_of(module, r->Ok_0@));
    r
}

/// Whether `v` holds the defined functions of `m` that can run, for every graph that
/// describes `m`: the least set closed under its calls from its entry points.
pub open spec fn reachable_set_of(m: WasmModule, v: Seq<u32>) -> bool {
    forall|g: FunctionDependencyGraph|
        #[trigger] describes(g, m) ==> {
            &&& forall|f: u32| v.contains(f) ==> g.defined(f as int)
            &&& g.closed(entry_points(m), v.to_set())
            &&& forall|s: Set<u32>| g.closed(entry_points(m), s) ==> v.to_set().subset_of(s)
        }
}

} // verus!
