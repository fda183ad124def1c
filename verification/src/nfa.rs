//! The nondeterministic finite automaton built from a parsed tree, and
//! its single-step transition function.

use vstd::prelude::*;
use crate::ast::RegexAST;
use crate::push_char;
use std::collections::HashSet;

verus! {

/// One outgoing transition of an automaton state, labelled by the
/// character it consumes, by "any character", or by nothing (epsilon).
#[derive(Debug, Clone, Copy, PartialEq, Eq)]
pub enum NFATransition {
    /// Consume exactly the given character and move to the target state.
    Chr(char, usize),
    /// Consume any one character and move to the target state.
    Any(usize),
    /// Move to the target state without consuming a character.
    Eps(usize),
}

/// A nondeterministic finite automaton: a growable arena of states
/// referenced by index, each owning its ordered list of outgoing
/// transitions. State 0 is the start state and state 1 the accept state.
pub struct NFAMachine {
    digraph: Vec<Vec<NFATransition>>,
}

impl View for NFAMachine {
    type V = Seq<Seq<NFATransition>>;

    /// The machine abstractly: for each state, its ordered transitions.
    closed spec fn view(&self) -> Seq<Seq<NFATransition>> {
        Seq::new(self.digraph@.len(), |k: int| self.digraph@[k]@)
    }
}

/// The state a transition leads to.
pub open spec fn spec_target(t: NFATransition) -> usize {
    match t {
        NFATransition::Chr(_, j) => j,
        NFATransition::Any(j) => j,
        NFATransition::Eps(j) => j,
    }
}

/// Every transition of the graph leads to an existing state.
pub open spec fn spec_wf_graph(g: Seq<Seq<NFATransition>>) -> bool {
    forall|k: int, j: int|
        0 <= k < g.len() && 0 <= j < g[k].len() ==> (spec_target(#[trigger] g[k][j]) as int)
            < g.len()
}

/// Laying a tree out between the states `start` and `end` of graph `g`:
/// a literal or wildcard becomes one labelled transition from `start`;
/// an alternation wires both sides between the same pair of states; a
/// concatenation appends one fresh midpoint state and wires its sides on
/// either half; a repetition wires its body from `start` back to `start`
/// and, if the two ends differ, adds an epsilon transition to `end`, as
/// does `Empty` alone.
pub open spec fn spec_add(
    g: Seq<Seq<NFATransition>>,
    ast: RegexAST,
    start: usize,
    end: usize,
) -> Seq<Seq<NFATransition>>
    decreases ast,
{
    match ast {
        RegexAST::Raw(c) => g.update(
            start as int,
            g[start as int].push(NFATransition::Chr(c, end)),
        ),
        RegexAST::Any => g.update(start as int, g[start as int].push(NFATransition::Any(end))),
        RegexAST::Join(x, y) => spec_add(spec_add(g, *x, start, end), *y, start, end),
        RegexAST::Cat(x, y) => {
            let mid = g.len() as usize;
            spec_add(spec_add(g.push(Seq::empty()), *x, start, mid), *y, mid, end)
        },
        RegexAST::Star(x) => {
            let g1 = spec_add(g, *x, start, start);
            if start != end {
                g1.update(start as int, g1[start as int].push(NFATransition::Eps(end)))
            } else {
                g1
            }
        },
        RegexAST::Empty => {
            if start != end {
                g.update(start as int, g[start as int].push(NFATransition::Eps(end)))
            } else {
                g
            }
        },
    }
}

/// The machine the builder produces for a tree: two initial states, the
/// start state 0 and the accept state 1, with the whole tree laid out
/// between them.
pub open spec fn spec_build(ast: RegexAST) -> Seq<Seq<NFATransition>> {
    spec_add(seq![Seq::empty(), Seq::empty()], ast, 0, 1)
}

/// How many fresh states laying a tree out appends to the graph: one
/// midpoint per concatenation node, and nothing else.
pub open spec fn spec_states_added(ast: RegexAST) -> nat
    decreases ast,
{
    match ast {
        RegexAST::Cat(x, y) => 1 + spec_states_added(*x) + spec_states_added(*y),
        RegexAST::Join(x, y) => spec_states_added(*x) + spec_states_added(*y),
        RegexAST::Star(x) => spec_states_added(*x),
        _ => 0,
    }
}

/// Laying a tree out appends exactly one state per concatenation node.
pub proof fn lemma_add_len(g: Seq<Seq<NFATransition>>, ast: RegexAST, start: usize, end: usize)
    requires
        (start as int) < g.len(),
        (end as int) < g.len(),
    ensures
        spec_add(g, ast, start, end).len() == g.len() + spec_states_added(ast),
    decreases ast,
{
    match ast {
        RegexAST::Join(x, y) => {
            lemma_add_len(g, *x, start, end);
            lemma_add_len(spec_add(g, *x, start, end), *y, start, end);
        },
        RegexAST::Cat(x, y) => {
            let mid = g.len() as usize;
            let g1 = g.push(Seq::empty());
            lemma_add_len(g1, *x, start, mid);
            lemma_add_len(spec_add(g1, *x, start, mid), *y, mid, end);
        },
        RegexAST::Star(x) => {
            lemma_add_len(g, *x, start, start);
        },
        _ => {},
    }
}

/// Laying a tree out only ever appends states and leads to existing
/// states: the graph keeps at least its old states, and stays well
/// formed.
pub proof fn lemma_add_wf(g: Seq<Seq<NFATransition>>, ast: RegexAST, start: usize, end: usize)
    requires
        spec_wf_graph(g),
        (start as int) < g.len(),
        (end as int) < g.len(),
    ensures
        spec_add(g, ast, start, end).len() >= g.len(),
        spec_wf_graph(spec_add(g, ast, start, end)),
    decreases ast,
{
    match ast {
        RegexAST::Raw(_) => {},
        RegexAST::Any => {},
        RegexAST::Join(x, y) => {
            lemma_add_wf(g, *x, start, end);
            lemma_add_wf(spec_add(g, *x, start, end), *y, start, end);
        },
        RegexAST::Cat(x, y) => {
            let mid = g.len() as usize;
            let g1 = g.push(Seq::empty());
            assert(spec_wf_graph(g1));
            lemma_add_wf(g1, *x, start, mid);
            lemma_add_wf(spec_add(g1, *x, start, mid), *y, mid, end);
        },
        RegexAST::Star(x) => {
            lemma_add_wf(g, *x, start, start);
        },
        RegexAST::Empty => {},
    }
}

/// Laying a tree out writes only into the row of its `start` state and
/// into rows appended beyond the old length: every other old row is kept
/// exactly as it was.
pub proof fn lemma_add_untouched(
    g: Seq<Seq<NFATransition>>,
    ast: RegexAST,
    start: usize,
    end: usize,
    k: int,
)
    requires
        (start as int) < g.len(),
        (end as int) < g.len(),
        g.len() + spec_states_added(ast) <= usize::MAX,
        0 <= k < g.len(),
        k != start as int,
    ensures
        spec_add(g, ast, start, end).len() >= g.len(),
        spec_add(g, ast, start, end)[k] == g[k],
    decreases ast,
{
    match ast {
        RegexAST::Raw(_) => {},
        RegexAST::Any => {},
        RegexAST::Join(x, y) => {
            lemma_add_untouched(g, *x, start, end, k);
            lemma_add_len(g, *x, start, end);
            lemma_add_untouched(spec_add(g, *x, start, end), *y, start, end, k);
        },
        RegexAST::Cat(x, y) => {
            let mid = g.len() as usize;
            let g1 = g.push(Seq::empty());
            lemma_add_untouched(g1, *x, start, mid, k);
            lemma_add_len(g1, *x, start, mid);
            lemma_add_untouched(spec_add(g1, *x, start, mid), *y, mid, end, k);
        },
        RegexAST::Star(x) => {
            lemma_add_untouched(g, *x, start, start, k);
        },
        RegexAST::Empty => {},
    }
}

/// The accept state of a built machine is isolated on its outgoing side:
/// whatever the tree, the construction never adds any transition out of
/// state 1, so in particular no character transition ever leaves it. The
/// bound on the tree's size only says that the machine is small enough to
/// exist in memory; every machine a builder actually returns meets it.
pub proof fn lemma_build_accept_isolated(ast: RegexAST)
    requires
        2 + spec_states_added(ast) <= usize::MAX,
    ensures
        spec_build(ast).len() >= 2,
        spec_build(ast)[1] == Seq::<NFATransition>::empty(),
        spec_wf_graph(spec_build(ast)),
{
    let g0 = seq![Seq::<NFATransition>::empty(), Seq::<NFATransition>::empty()];
    assert(spec_wf_graph(g0));
    lemma_add_wf(g0, ast, 0, 1);
    lemma_add_untouched(g0, ast, 0, 1, 1);
}

/// Whether the transition `t`, leaving state `s`, contributes `target` to
/// the states active after reading `c`: a character transition does when
/// its label is `c`, a wildcard always does, and an epsilon transition
/// contributes both its target and the originating state itself.
pub open spec fn spec_contributes(t: NFATransition, s: usize, c: char, target: usize) -> bool {
    match t {
        NFATransition::Chr(c2, tgt) => c2 == c && target == tgt,
        NFATransition::Any(tgt) => target == tgt,
        NFATransition::Eps(tgt) => target == tgt || target == s,
    }
}

/// The set of states reachable in one step from the active set on input
/// `c`: everything some transition of some active state contributes.
pub open spec fn spec_step(g: Seq<Seq<NFATransition>>, active: Set<usize>, c: char) -> Set<usize> {
    Set::new(
        |target: usize|
            exists|s: usize, j: int|
                active.contains(s) && 0 <= (s as int) < g.len() && 0 <= j < g[s as int].len()
                    && #[trigger] spec_contributes(g[s as int][j], s, c, target),
    )
}

/// As `spec_step`, but counting only the active states below `s_lim`:
/// the intermediate value of the outer loop of `mov`.
spec fn step_upto(g: Seq<Seq<NFATransition>>, active: Set<usize>, c: char, s_lim: int) -> Set<
    usize,
> {
    Set::new(
        |target: usize|
            exists|s: usize, j: int|
                active.contains(s) && 0 <= (s as int) < s_lim && 0 <= j < g[s as int].len()
                    && #[trigger] spec_contributes(g[s as int][j], s, c, target),
    )
}

/// What the first `j_lim` transitions of state `s`'s row contribute: the
/// intermediate value of the inner loop of `mov`.
spec fn row_upto(g: Seq<Seq<NFATransition>>, s: usize, c: char, j_lim: int) -> Set<usize> {
    Set::new(
        |target: usize|
            exists|j: int|
                0 <= j < j_lim && j < g[s as int].len() && #[trigger] spec_contributes(
                    g[s as int][j],
                    s,
                    c,
                    target,
                ),
    )
}

/// The decimal digit character for a value below ten.
pub open spec fn spec_dec_digit(d: nat) -> char {
    ((48 + d % 10) as u8) as char
}

/// The decimal numeral of `n`, most significant digit first.
pub open spec fn spec_dec(n: nat) -> Seq<char>
    decreases n,
{
    if n < 10 {
        seq![spec_dec_digit(n)]
    } else {
        spec_dec(n / 10).push(spec_dec_digit(n % 10))
    }
}

/// The label a transition carries in the diagram text: the character
/// itself for a character transition, with a backslash before a quote or
/// a backslash so the quoting stays balanced, and fixed markers for the
/// wildcard and epsilon transitions.
pub open spec fn spec_dot_label(t: NFATransition) -> Seq<char> {
    match t {
        NFATransition::Chr(ch, _) => if ch == '"' || ch == '\\' {
            seq!['\\', ch]
        } else {
            seq![ch]
        },
        NFATransition::Any(_) => "<any>"@,
        NFATransition::Eps(_) => "<eps>"@,
    }
}

/// One edge line of the diagram text.
pub open spec fn spec_dot_edge(i: nat, t: NFATransition) -> Seq<char> {
    "\t"@ + spec_dec(i) + " -> "@ + spec_dec(spec_target(t) as nat)
        + " [shape=circle, label=\""@ + spec_dot_label(t) + "\"];\n"@
}

/// The node line declaring an ordinary (neither start nor accept) state.
pub open spec fn spec_dot_node(i: nat) -> Seq<char> {
    "\t"@ + spec_dec(i) + " [shape=circle];\n"@
}

/// The edge lines of the first `j_lim` transitions of state `i`'s row.
pub open spec fn spec_dot_row(row: Seq<NFATransition>, i: nat, j_lim: int) -> Seq<char>
    decreases j_lim,
{
    if j_lim <= 0 || j_lim > row.len() {
        Seq::empty()
    } else {
        spec_dot_row(row, i, j_lim - 1) + spec_dot_edge(i, row[j_lim - 1])
    }
}

/// Everything the diagram text says about one state: its node line, for
/// states other than the two designated ones, then its edge lines.
pub open spec fn spec_dot_state(g: Seq<Seq<NFATransition>>, k: int) -> Seq<char> {
    (if k >= 2 {
        spec_dot_node(k as nat)
    } else {
        Seq::empty()
    }) + spec_dot_row(g[k], k as nat, g[k].len() as int)
}

/// The state sections of the diagram text for the first `k_lim` states.
pub open spec fn spec_dot_states(g: Seq<Seq<NFATransition>>, k_lim: int) -> Seq<char>
    decreases k_lim,
{
    if k_lim <= 0 || k_lim > g.len() {
        Seq::empty()
    } else {
        spec_dot_states(g, k_lim - 1) + spec_dot_state(g, k_lim - 1)
    }
}

/// The whole diagram text of a machine: a directed-graph description
/// with the start and accept states marked distinctly, every state
/// declared, and every transition listed exactly once as a labelled edge.
pub open spec fn spec_dot(g: Seq<Seq<NFATransition>>) -> Seq<char> {
    "digraph nfa {\n\t0 [shape=doublecircle];\n\t1 [shape=doublecircle];\n"@ + spec_dot_states(
        g,
        g.len() as int,
    ) + "}"@
}

/// Appends the decimal numeral of `n`, most significant digit first.
fn push_dec(out: &mut String, n: usize)
    ensures
        final(out)@ == old(out)@ + spec_dec(n as nat),
    decreases n,
{
    if n >= 10 {
        push_dec(out, n / 10);
    }
    let ghost mid = out@;
    let d: u8 = 48 + (n % 10) as u8;
    push_char(out, d as char);
    proof {
        assert(d as char == spec_dec_digit(n as nat % 10));
        if n < 10 {
            assert(out@ =~= old(out)@ + spec_dec(n as nat));
        } else {
            assert(mid == old(out)@ + spec_dec(n as nat / 10));
            assert(out@ =~= old(out)@ + spec_dec(n as nat));
        }
    }
}

/// Appends one edge line of the diagram text.
fn push_edge(out: &mut String, i: usize, t: NFATransition)
    ensures
        final(out)@ == old(out)@ + spec_dot_edge(i as nat, t),
{
    out.append("\t");
    push_dec(out, i);
    out.append(" -> ");
    let tgt: usize = match t {
        NFATransition::Chr(_, x) => x,
        NFATransition::Any(x) => x,
        NFATransition::Eps(x) => x,
    };
    push_dec(out, tgt);
    out.append(" [shape=circle, label=\"");
    match t {
        NFATransition::Chr(ch, _) => {
            if ch == '"' || ch == '\\' {
                push_char(out, '\\');
            }
            push_char(out, ch);
        },
        NFATransition::Any(_) => {
            out.append("<any>");
        },
        NFATransition::Eps(_) => {
            out.append("<eps>");
        },
    }
    out.append("\"];\n");
    proof {
        assert(tgt == spec_target(t));
        assert(out@ =~= old(out)@ + spec_dot_edge(i as nat, t));
    }
}

impl NFAMachine {
    /// A machine is well formed when it has its two designated states and
    /// every transition leads to an existing state.
    pub open spec fn wf(&self) -> bool {
        self@.len() >= 2 && spec_wf_graph(self@)
    }

    /// Build the automaton for a tree, consuming it: two fresh states,
    /// start 0 and accept 1, and the whole tree laid out between them.
    /// The accept state of the result has no outgoing transitions.
    pub fn new(ast: Box<RegexAST>) -> (r: Self)
        ensures
            r@ == spec_build(*ast),
            r.wf(),
            r@[1] == Seq::<NFATransition>::empty(),
    {
        let mut digraph: Vec<Vec<NFATransition>> = Vec::new();
        digraph.push(Vec::new());
        digraph.push(Vec::new());
        let mut this = NFAMachine { digraph };
        proof {
            assert(this@ =~= seq![Seq::<NFATransition>::empty(), Seq::<NFATransition>::empty()]);
            assert(spec_wf_graph(this@));
        }
        let ghost ast0 = *ast;
        let ghost g0 = this@;
        this.add(ast, 0, 1);
        let n = this.digraph.len();
        proof {
            lemma_add_len(g0, ast0, 0, 1);
            assert(n == this@.len());
            lemma_build_accept_isolated(ast0);
        }
        this
    }

    /// One step of the simulation: from the set of active states, read
    /// one character and return every state some transition contributes.
    /// Epsilon transitions are relaxed once, not transitively: an epsilon
    /// edge contributes its target and keeps its source, and a full
    /// epsilon closure is the caller's business.
    pub fn mov(&self, state: HashSet<usize>, c: char) -> (r: HashSet<usize>)
        requires
            self.wf(),
            forall|s: usize| state@.contains(s) ==> (s as int) < self@.len(),
        ensures
            r@ == spec_step(self@, state@, c),
    {
        let ghost g = self@;
        let mut r: HashSet<usize> = HashSet::new();
        let n = self.digraph.len();
        proof {
            assert(r@ =~= step_upto(g, state@, c, 0));
        }
        let mut s: usize = 0;
        while s < n
            invariant
                n == g.len(),
                g == self@,
                self.wf(),
                s <= n,
                r@ == step_upto(g, state@, c, s as int),
            decreases n - s,
        {
            if state.contains(&s) {
                let m = self.digraph[s].len();
                let mut j: usize = 0;
                proof {
                    assert(r@ =~= step_upto(g, state@, c, s as int).union(row_upto(g, s, c, 0)));
                }
                while j < m
                    invariant
                        n == g.len(),
                        g == self@,
                        self.wf(),
                        s < n,
                        m == g[s as int].len(),
                        j <= m,
                        state@.contains(s),
                        r@ == step_upto(g, state@, c, s as int).union(row_upto(g, s, c, j as int)),
                    decreases m - j,
                {
                    let t = self.digraph[s][j];
                    let ghost r_old = r@;
                    match t {
                        NFATransition::Chr(c2, tgt) => {
                            if c2 == c {
                                r.insert(tgt);
                            }
                        },
                        NFATransition::Any(tgt) => {
                            r.insert(tgt);
                        },
                        NFATransition::Eps(tgt) => {
                            r.insert(tgt);
                            r.insert(s);
                        },
                    }
                    proof {
                        let sl = step_upto(g, state@, c, s as int);
                        assert forall|x: usize|
                            r@.contains(x) <==> (sl.contains(x) || row_upto(
                                g,
                                s,
                                c,
                                j as int + 1,
                            ).contains(x)) by {
                            if r@.contains(x) && !r_old.contains(x) {
                                assert(spec_contributes(g[s as int][j as int], s, c, x));
                            }
                            if row_upto(g, s, c, j as int + 1).contains(x) && !row_upto(
                                g,
                                s,
                                c,
                                j as int,
                            ).contains(x) {
                                let j0 = choose|j0: int|
                                    0 <= j0 < j as int + 1 && j0 < g[s as int].len()
                                        && #[trigger] spec_contributes(g[s as int][j0], s, c, x);
                                assert(j0 == j as int);
                                assert(spec_contributes(g[s as int][j as int], s, c, x));
                                assert(r@.contains(x));
                            }
                        }
                        assert(r@ =~= sl.union(row_upto(g, s, c, j as int + 1)));
                    }
                    j += 1;
                }
                proof {
                    assert forall|x: usize|
                        step_upto(g, state@, c, s as int + 1).contains(x) <==> (step_upto(
                            g,
                            state@,
                            c,
                            s as int,
                        ).contains(x) || row_upto(g, s, c, m as int).contains(x)) by {
                        if step_upto(g, state@, c, s as int + 1).contains(x) {
                            let (s0, j0) = choose|s0: usize, j0: int|
                                state@.contains(s0) && 0 <= (s0 as int) < s as int + 1 && 0 <= j0
                                    < g[s0 as int].len() && #[trigger] spec_contributes(
                                    g[s0 as int][j0],
                                    s0,
                                    c,
                                    x,
                                );
                            if s0 == s {
                                assert(row_upto(g, s, c, m as int).contains(x));
                            } else {
                                assert(step_upto(g, state@, c, s as int).contains(x));
                            }
                        }
                        if row_upto(g, s, c, m as int).contains(x) {
                            let j0 = choose|j0: int|
                                0 <= j0 < m as int && j0 < g[s as int].len()
                                    && #[trigger] spec_contributes(g[s as int][j0], s, c, x);
                            assert(spec_contributes(g[s as int][j0], s, c, x));
                            assert(step_upto(g, state@, c, s as int + 1).contains(x));
                        }
                    }
                    assert(r@ =~= step_upto(g, state@, c, s as int + 1));
                }
            } else {
                proof {
                    assert forall|x: usize|
                        step_upto(g, state@, c, s as int + 1).contains(x) <==> step_upto(
                            g,
                            state@,
                            c,
                            s as int,
                        ).contains(x) by {
                        if step_upto(g, state@, c, s as int + 1).contains(x) {
                            let (s0, j0) = choose|s0: usize, j0: int|
                                state@.contains(s0) && 0 <= (s0 as int) < s as int + 1 && 0 <= j0
                                    < g[s0 as int].len() && #[trigger] spec_contributes(
                                    g[s0 as int][j0],
                                    s0,
                                    c,
                                    x,
                                );
                            assert(s0 != s);
                            assert(step_upto(g, state@, c, s as int).contains(x));
                        }
                    }
                    assert(r@ =~= step_upto(g, state@, c, s as int + 1));
                }
            }
            s += 1;
        }
        proof {
            assert(r@ =~= spec_step(g, state@, c));
        }
        r
    }

    /// The diagram text of the machine, in the dot language understood by
    /// common graph-rendering tools: the start and accept states drawn as
    /// double circles, every other state as a circle, and every
    /// transition exactly once as an edge labelled by its character, or
    /// by a fixed marker for a wildcard or epsilon transition.
    pub fn dot(&self) -> (r: String)
        ensures
            r@ == spec_dot(self@),
    {
        let ghost g = self@;
        let mut out = String::new();
        out.append("digraph nfa {\n\t0 [shape=doublecircle];\n\t1 [shape=doublecircle];\n");
        let ghost header = out@;
        let n = self.digraph.len();
        let mut i: usize = 0;
        proof {
            assert(out@ =~= header + spec_dot_states(g, 0));
        }
        while i < n
            invariant
                n == g.len(),
                g == self@,
                i <= n,
                header == "digraph nfa {\n\t0 [shape=doublecircle];\n\t1 [shape=doublecircle];\n"@,
                out@ == header + spec_dot_states(g, i as int),
            decreases n - i,
        {
            if i >= 2 {
                out.append("\t");
                push_dec(&mut out, i);
                out.append(" [shape=circle];\n");
            }
            let ghost base = out@;
            proof {
                assert(base =~= header + spec_dot_states(g, i as int) + (if i as int >= 2 {
                    spec_dot_node(i as nat)
                } else {
                    Seq::<char>::empty()
                }));
            }
            let m = self.digraph[i].len();
            let mut j: usize = 0;
            proof {
                assert(out@ =~= base + spec_dot_row(g[i as int], i as nat, 0));
            }
            while j < m
                invariant
                    n == g.len(),
                    g == self@,
                    i < n,
                    m == g[i as int].len(),
                    j <= m,
                    base == header + spec_dot_states(g, i as int) + (if i as int >= 2 {
                        spec_dot_node(i as nat)
                    } else {
                        Seq::<char>::empty()
                    }),
                    out@ == base + spec_dot_row(g[i as int], i as nat, j as int),
                decreases m - j,
            {
                let t = self.digraph[i][j];
                push_edge(&mut out, i, t);
                proof {
                    assert(out@ =~= base + spec_dot_row(g[i as int], i as nat, j as int + 1));
                }
                j += 1;
            }
            proof {
                assert(out@ =~= header + spec_dot_states(g, i as int + 1));
            }
            i += 1;
        }
        out.append("}");
        proof {
            assert(out@ =~= spec_dot(g));
        }
        out
    }

    /// The number of states of the machine.
    pub fn state_count(&self) -> (r: usize)
        ensures
            r == self@.len(),
    {
        self.digraph.len()
    }

    /// How many transitions leave the given state.
    pub fn transition_count(&self, s: usize) -> (r: usize)
        requires
            (s as int) < self@.len(),
        ensures
            r == self@[s as int].len(),
    {
        self.digraph[s].len()
    }

    /// The `j`-th transition leaving the given state.
    pub fn transition_at(&self, s: usize, j: usize) -> (r: NFATransition)
        requires
            (s as int) < self@.len(),
            (j as int) < self@[s as int].len(),
        ensures
            r == self@[s as int][j as int],
    {
        self.digraph[s][j]
    }

    /// Lay a tree out between two existing states of this machine; the
    /// effect on the graph is exactly `spec_add`.
    fn add(&mut self, ast: Box<RegexAST>, start_state: usize, end_state: usize)
        requires
            spec_wf_graph(old(self)@),
            (start_state as int) < old(self)@.len(),
            (end_state as int) < old(self)@.len(),
        ensures
            final(self)@ == spec_add(old(self)@, *ast, start_state, end_state),
            final(self)@.len() >= old(self)@.len(),
            spec_wf_graph(final(self)@),
        decreases *ast,
    {
        proof {
            lemma_add_wf(self@, *ast, start_state, end_state);
        }
        match *ast {
            RegexAST::Raw(x) => {
                self.digraph[start_state].push(NFATransition::Chr(x, end_state));
                proof {
                    assert(self@ =~= old(self)@.update(
                        start_state as int,
                        old(self)@[start_state as int].push(
                            NFATransition::Chr(x, end_state),
                        ),
                    ));
                }
            },
            RegexAST::Any => {
                self.digraph[start_state].push(NFATransition::Any(end_state));
                proof {
                    assert(self@ =~= old(self)@.update(
                        start_state as int,
                        old(self)@[start_state as int].push(NFATransition::Any(end_state)),
                    ));
                }
            },
            RegexAST::Join(x, y) => {
                self.add(x, start_state, end_state);
                self.add(y, start_state, end_state);
            },
            RegexAST::Cat(x, y) => {
                self.digraph.push(Vec::new());
                let mid = self.digraph.len() - 1;
                proof {
                    assert(self@ =~= old(self)@.push(Seq::empty()));
                }
                self.add(x, start_state, mid);
                self.add(y, mid, end_state);
            },
            RegexAST::Star(x) => {
                self.add(x, start_state, start_state);
                if start_state != end_state {
                    let ghost g1 = self@;
                    self.digraph[start_state].push(NFATransition::Eps(end_state));
                    proof {
                        assert(self@ =~= g1.update(
                            start_state as int,
                            g1[start_state as int].push(NFATransition::Eps(end_state)),
                        ));
                    }
                }
            },
            RegexAST::Empty => {
                if start_state != end_state {
                    self.digraph[start_state].push(NFATransition::Eps(end_state));
                    proof {
                        assert(self@ =~= old(self)@.update(
                            start_state as int,
                            old(self)@[start_state as int].push(
                                NFATransition::Eps(end_state),
                            ),
                        ));
                    }
                }
            },
        }
    }
}

} // verus!
