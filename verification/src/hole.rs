//! Hole dependency planning: which holes wait on which, in what order they
//! can be filled, which of them can be filled in parallel, and which form
//! independent clusters.

use vstd::prelude::*;
use crate::effect_set::EffectSet;
use crate::name_map::NameMap;
use crate::names::{views, sorted, sorted_listing, lemma_sorted_no_duplicates, lemma_sorted_unique};
use crate::text::{str_lt, string_of, chars_of, push_char, compare_str, digit_char};
use crate::names::join_with;

verus! {

/// Location in source.
#[derive(Debug, Clone)]
pub struct SourceLocation {
    pub file: String,
    pub line: u32,
    pub column: u32,
}

/// Confidence assessment of a hole's analysis.
#[derive(Debug, Clone)]
pub struct Confidence {
    pub type_inference: TypeInferenceConfidence,
    pub candidate_ranking: CandidateRanking,
    pub ambiguous_count: usize,
    pub recommendation: Option<String>,
}

#[derive(Debug, Clone, Copy, PartialEq, Eq)]
pub enum TypeInferenceConfidence {
    Certain,
    Partial,
    Unknown,
}

#[derive(Debug, Clone, Copy, PartialEq, Eq)]
pub enum CandidateRanking {
    UniqueBest,
    Ambiguous,
    NoCandidates,
}

/// Errors from one source, with a suggestion for handling them.
#[derive(Debug, Clone)]
pub struct ErrorCluster {
    pub source: String,
    pub errors: Vec<String>,
    pub handling_suggestion: String,
}

/// Kind of dependency between two holes.
#[derive(Debug, Clone, Copy, PartialEq, Eq, Hash)]
pub enum EdgeKind {
    /// The later hole's expected type depends on the earlier hole's output.
    Type,
    /// The later hole's bindings trace back to the earlier hole's output.
    Value,
    /// The later hole's cost budget depends on the earlier hole's actual cost.
    Cost,
}

/// A typed edge between two holes: `to` depends on `from`.
#[derive(Debug, Clone, PartialEq, Eq, Hash)]
pub struct DependencyEdge {
    pub from: String,
    pub to: String,
    pub kind: EdgeKind,
}

/// An edge by its endpoints' names and its kind.
pub open spec fn edge_view(e: DependencyEdge) -> (Seq<char>, Seq<char>, EdgeKind) {
    (e.from@, e.to@, e.kind)
}

/// Every dependency of a hole is itself a hole of the graph.
pub open spec fn closed_graph(g: Map<Seq<char>, Set<Seq<char>>>) -> bool {
    forall|a: Seq<char>| #[trigger] g.contains_key(a) ==> g[a].subset_of(g.dom())
}

/// The graph with hole `n` present (with no dependencies if it was absent).
pub open spec fn with_hole(g: Map<Seq<char>, Set<Seq<char>>>, n: Seq<char>) -> Map<
    Seq<char>,
    Set<Seq<char>>,
> {
    if g.contains_key(n) {
        g
    } else {
        g.insert(n, Set::empty())
    }
}

/// The graph after recording that `hole` depends on `dep`.
pub open spec fn with_dependency(g: Map<Seq<char>, Set<Seq<char>>>, hole: Seq<char>, dep: Seq<char>) -> Map<
    Seq<char>,
    Set<Seq<char>>,
> {
    let m = with_hole(with_hole(g, hole), dep);
    m.insert(hole, m[hole].insert(dep))
}

/// The holes that depend on `h`.
pub open spec fn dependents_in(g: Map<Seq<char>, Set<Seq<char>>>, h: Seq<char>) -> Set<Seq<char>> {
    g.dom().filter(|m: Seq<char>| g[m].contains(h))
}

/// The holes with no dependencies.
pub open spec fn root_set(g: Map<Seq<char>, Set<Seq<char>>>) -> Set<Seq<char>> {
    g.dom().filter(|m: Seq<char>| g[m] == Set::<Seq<char>>::empty())
}

/// Every member of `s` depends on some member of `s`: no member of `s` can
/// ever have all its dependencies filled before it.
#[verifier::opaque]
pub open spec fn blocked(g: Map<Seq<char>, Set<Seq<char>>>, s: Set<Seq<char>>) -> bool {
    forall|x: Seq<char>| #[trigger] s.contains(x) ==> exists|d: Seq<char>| #[trigger] g[x].contains(d) && s.contains(d)
}

/// The dependencies contain a cycle: some nonempty set of holes is blocked.
pub open spec fn has_cycle_spec(g: Map<Seq<char>, Set<Seq<char>>>) -> bool {
    exists|s: Set<Seq<char>>| s.subset_of(g.dom()) && s != Set::<Seq<char>>::empty() && #[trigger] blocked(g, s)
}

/// The holes that can never be filled after all their dependencies: those
/// in some blocked set.
#[verifier::opaque]
pub open spec fn stuck(g: Map<Seq<char>, Set<Seq<char>>>) -> Set<Seq<char>> {
    g.dom().filter(
        |x: Seq<char>|
            exists|s: Set<Seq<char>>| s.subset_of(g.dom()) && #[trigger] blocked(g, s) && s.contains(x),
    )
}

/// A member of a blocked set depends on a member of the set.
pub proof fn lemma_blocked_elim(g: Map<Seq<char>, Set<Seq<char>>>, s: Set<Seq<char>>, x: Seq<char>)
    requires
        blocked(g, s),
        s.contains(x),
    ensures
        exists|d: Seq<char>| #[trigger] g[x].contains(d) && s.contains(d),
{
    reveal(blocked);
}

/// A member of a blocked set of holes is stuck.
pub proof fn lemma_stuck_intro(g: Map<Seq<char>, Set<Seq<char>>>, s: Set<Seq<char>>, x: Seq<char>)
    requires
        s.subset_of(g.dom()),
        blocked(g, s),
        s.contains(x),
    ensures
        stuck(g).contains(x),
{
    reveal(stuck);
}

/// A stuck hole lies in a blocked set of holes.
pub proof fn lemma_stuck_elim(g: Map<Seq<char>, Set<Seq<char>>>, x: Seq<char>) -> (s: Set<Seq<char>>)
    requires
        stuck(g).contains(x),
    ensures
        s.subset_of(g.dom()),
        blocked(g, s),
        s.contains(x),
        g.dom().contains(x),
{
    reveal(stuck);
    choose|s: Set<Seq<char>>| s.subset_of(g.dom()) && #[trigger] blocked(g, s) && s.contains(x)
}

/// The dependencies contain a cycle exactly when some hole is stuck.
pub proof fn lemma_cycle_iff_stuck(g: Map<Seq<char>, Set<Seq<char>>>)
    ensures
        has_cycle_spec(g) <==> stuck(g) != Set::<Seq<char>>::empty(),
{
    if has_cycle_spec(g) {
        let s = choose|s: Set<Seq<char>>| s.subset_of(g.dom()) && s != Set::<Seq<char>>::empty() && #[trigger] blocked(g, s);
        if forall|x: Seq<char>| !s.contains(x) {
            assert(s =~= Set::<Seq<char>>::empty());
        }
        let x = choose|x: Seq<char>| s.contains(x);
        lemma_stuck_intro(g, s, x);
    }
    if stuck(g) != Set::<Seq<char>>::empty() {
        if forall|x: Seq<char>| !stuck(g).contains(x) {
            assert(stuck(g) =~= Set::<Seq<char>>::empty());
        }
        let x = choose|x: Seq<char>| stuck(g).contains(x);
        let s = lemma_stuck_elim(g, x);
        assert(s != Set::<Seq<char>>::empty()) by {
            assert(s.contains(x));
        }
    }
}

/// `order` splits at `k`: each hole before `k` comes after all its
/// dependencies, and the holes from `k` on are the stuck ones, in
/// increasing order.
pub open spec fn fill_order_split(
    g: Map<Seq<char>, Set<Seq<char>>>,
    order: Seq<Seq<char>>,
    k: int,
) -> bool {
    &&& 0 <= k <= order.len()
    &&& forall|i: int, d: Seq<char>|
        0 <= i < k && #[trigger] g[order[i]].contains(d) ==> order.take(i).contains(d)
    &&& sorted(order.skip(k))
    &&& order.skip(k).to_set() == stuck(g)
}

/// The holes that become fillable once the hole at position `h` of the
/// fill queue `q` is filled: those not yet queued that depend on it and
/// have all their dependencies among `q[0..=h]`.
pub open spec fn newly_ready(
    g: Map<Seq<char>, Set<Seq<char>>>,
    q: Seq<Seq<char>>,
    h: int,
) -> Set<Seq<char>> {
    g.dom().filter(
        |x: Seq<char>| !q.contains(x) && g[x].contains(q[h]) && g[x].subset_of(q.take(h + 1).to_set()),
    )
}

/// The fill queue grown from `q` by filling its holes in turn from position
/// `h` on: each filled hole appends, in increasing order, the holes it makes
/// fillable.
pub open spec fn fill_queue(g: Map<Seq<char>, Set<Seq<char>>>, q: Seq<Seq<char>>, h: nat) -> Seq<
    Seq<char>,
>
    decreases g.dom().len() - h,
{
    if h >= q.len() || q.len() > g.dom().len() {
        q
    } else {
        fill_queue(g, q + sorted_listing(newly_ready(g, q, h as int)), h + 1)
    }
}

/// The suggested fill order: the holes without dependencies in increasing
/// order, the queue grown from them by filling its holes in turn, then the
/// stuck holes in increasing order.
pub open spec fn fill_order(g: Map<Seq<char>, Set<Seq<char>>>) -> Seq<Seq<char>> {
    fill_queue(g, sorted_listing(root_set(g)), 0) + sorted_listing(stuck(g))
}

/// The holes placed in the first `k` layers.
pub open spec fn placed(layers: Seq<Seq<Seq<char>>>, k: int) -> Set<Seq<char>>
    decreases k,
{
    if k <= 0 {
        Set::empty()
    } else {
        placed(layers, k - 1).union(layers[k - 1].to_set())
    }
}

/// The holes not in `done` whose dependencies are all in `done`.
pub open spec fn ready_after(g: Map<Seq<char>, Set<Seq<char>>>, done: Set<Seq<char>>) -> Set<Seq<char>> {
    g.dom().filter(|x: Seq<char>| !done.contains(x) && g[x].subset_of(done))
}

/// Each layer holds, in increasing order, the holes not placed in earlier
/// layers whose dependencies all are; together the layers place every hole.
pub open spec fn is_layering(g: Map<Seq<char>, Set<Seq<char>>>, layers: Seq<Seq<Seq<char>>>) -> bool {
    &&& forall|k: int| 0 <= k < layers.len() ==> sorted(#[trigger] layers[k]) && layers[k].len() > 0
    &&& forall|k: int| 0 <= k < layers.len() ==> (#[trigger] layers[k]).to_set() == ready_after(g, placed(layers, k))
    &&& placed(layers, layers.len() as int) == g.dom()
}

/// Layers by the names they hold.
pub open spec fn layer_views(ls: Seq<Vec<String>>) -> Seq<Seq<Seq<char>>> {
    ls.map_values(|l: Vec<String>| views(l@))
}

/// Adding a layer leaves what earlier layers place unchanged.
pub proof fn lemma_placed_push(layers: Seq<Seq<Seq<char>>>, x: Seq<Seq<char>>, k: int)
    requires
        0 <= k <= layers.len(),
    ensures
        placed(layers.push(x), k) == placed(layers, k),
    decreases k,
{
    if k > 0 {
        lemma_placed_push(layers, x, k - 1);
        assert(layers.push(x)[k - 1] == layers[k - 1]);
    }
}

/// One of the two holes depends on the other.
pub open spec fn adjacent(g: Map<Seq<char>, Set<Seq<char>>>, a: Seq<char>, b: Seq<char>) -> bool {
    (g.contains_key(a) && g[a].contains(b)) || (g.contains_key(b) && g[b].contains(a))
}

/// A walk through holes, each step between adjacent holes.
pub open spec fn is_walk(g: Map<Seq<char>, Set<Seq<char>>>, p: Seq<Seq<char>>) -> bool {
    &&& p.len() > 0
    &&& forall|i: int| 0 < i < p.len() ==> adjacent(g, p[i - 1], #[trigger] p[i])
}

/// Some walk leads from `a` to `b`.
pub open spec fn linked(g: Map<Seq<char>, Set<Seq<char>>>, a: Seq<char>, b: Seq<char>) -> bool {
    exists|p: Seq<Seq<char>>| #[trigger] is_walk(g, p) && p[0] == a && p.last() == b
}

/// A hole is linked to itself.
pub proof fn lemma_linked_refl(g: Map<Seq<char>, Set<Seq<char>>>, a: Seq<char>)
    ensures
        linked(g, a, a),
{
    let p = seq![a];
    assert(is_walk(g, p));
}

/// A walk extends by an adjacent hole.
pub proof fn lemma_linked_step(g: Map<Seq<char>, Set<Seq<char>>>, a: Seq<char>, b: Seq<char>, c: Seq<char>)
    requires
        linked(g, a, b),
        adjacent(g, b, c),
    ensures
        linked(g, a, c),
{
    let p = choose|p: Seq<Seq<char>>| #[trigger] is_walk(g, p) && p[0] == a && p.last() == b;
    let q = p.push(c);
    assert forall|i: int| 0 < i < q.len() implies adjacent(g, q[i - 1], #[trigger] q[i]) by {
        if i < p.len() {
            assert(q[i - 1] == p[i - 1] && q[i] == p[i]);
        }
    }
    assert(is_walk(g, q));
}

/// The clusters are the connected groups of holes: each nonempty and in
/// increasing order; every hole in exactly one; a cluster holds every hole
/// adjacent to one of its members and only holes linked to its first
/// member; clusters ordered by their first member.
pub open spec fn is_clustering(g: Map<Seq<char>, Set<Seq<char>>>, cs: Seq<Seq<Seq<char>>>) -> bool {
    &&& forall|i: int| 0 <= i < cs.len() ==> sorted(#[trigger] cs[i]) && cs[i].len() > 0
    &&& forall|i: int, x: Seq<char>| 0 <= i < cs.len() && #[trigger] cs[i].contains(x) ==> g.dom().contains(x)
    &&& forall|x: Seq<char>| #[trigger] g.dom().contains(x) ==> exists|i: int| 0 <= i < cs.len() && #[trigger] cs[i].contains(x)
    &&& forall|i: int, j: int, x: Seq<char>|
        0 <= i < cs.len() && 0 <= j < cs.len() && #[trigger] cs[i].contains(x) && #[trigger] cs[j].contains(x) ==> i == j
    &&& forall|i: int, x: Seq<char>, y: Seq<char>|
        0 <= i < cs.len() && #[trigger] cs[i].contains(x) && #[trigger] adjacent(g, x, y) ==> cs[i].contains(y)
    &&& forall|i: int, x: Seq<char>| 0 <= i < cs.len() && #[trigger] cs[i].contains(x) ==> linked(g, cs[i][0], x)
    &&& forall|i: int, j: int| 0 <= i < j < cs.len() ==> str_lt(#[trigger] cs[i][0], #[trigger] cs[j][0])
}

/// The lower-case hexadecimal digit of a value below sixteen.
pub open spec fn hex_digit(d: nat) -> char {
    if d < 10 {
        digit_char(d)
    } else if d == 10 {
        'a'
    } else if d == 11 {
        'b'
    } else if d == 12 {
        'c'
    } else if d == 13 {
        'd'
    } else if d == 14 {
        'e'
    } else {
        'f'
    }
}

/// How a character is written inside a JSON string: quote, backslash and
/// the named controls are escaped by name, other controls as `\u00XX`.
pub open spec fn escape_char(c: char) -> Seq<char> {
    if c == '"' {
        seq!['\\', '"']
    } else if c == '\\' {
        seq!['\\', '\\']
    } else if c == '\n' {
        seq!['\\', 'n']
    } else if c == '\r' {
        seq!['\\', 'r']
    } else if c == '\t' {
        seq!['\\', 't']
    } else if (c as u32) < 0x20 {
        seq!['\\', 'u', '0', '0', hex_digit(((c as u32) / 16) as nat), hex_digit(((c as u32) % 16) as nat)]
    } else {
        seq![c]
    }
}

/// The escaped characters of a text.
pub open spec fn escape_text(s: Seq<char>) -> Seq<char>
    decreases s.len(),
{
    if s.len() == 0 {
        Seq::empty()
    } else {
        escape_text(s.drop_last()) + escape_char(s.last())
    }
}

/// A text as a JSON string literal.
pub open spec fn json_str(s: Seq<char>) -> Seq<char> {
    seq!['"'] + escape_text(s) + seq!['"']
}

/// `", "`-separated JSON string literals.
pub open spec fn json_strs(s: Seq<Seq<char>>) -> Seq<char> {
    join_with(s.map_values(|x: Seq<char>| json_str(x)), ", "@)
}

/// How an edge kind is named in JSON.
pub open spec fn kind_text(k: EdgeKind) -> Seq<char> {
    match k {
        EdgeKind::Type => "type"@,
        EdgeKind::Value => "value"@,
        EdgeKind::Cost => "cost"@,
    }
}

/// Edge `a` sorts before edge `b`: by source hole, then by target hole.
pub open spec fn edge_before(a: (Seq<char>, Seq<char>, EdgeKind), b: (Seq<char>, Seq<char>, EdgeKind)) -> bool {
    str_lt(a.0, b.0) || (a.0 == b.0 && str_lt(a.1, b.1))
}

/// Where `e` goes in a sorted list: after every edge it does not sort before.
pub open spec fn insert_pos(s: Seq<(Seq<char>, Seq<char>, EdgeKind)>, e: (Seq<char>, Seq<char>, EdgeKind)) -> int
    decreases s.len(),
{
    if s.len() == 0 {
        0
    } else if edge_before(e, s.last()) {
        insert_pos(s.drop_last(), e)
    } else {
        s.len() as int
    }
}

/// The edges stably sorted by (source, target): each edge in turn is
/// inserted after the edges that do not sort after it.
pub open spec fn sort_edges(s: Seq<(Seq<char>, Seq<char>, EdgeKind)>) -> Seq<(Seq<char>, Seq<char>, EdgeKind)>
    decreases s.len(),
{
    if s.len() == 0 {
        Seq::empty()
    } else {
        let t = sort_edges(s.drop_last());
        t.insert(insert_pos(t, s.last()), s.last())
    }
}

/// One edge as a JSON object.
pub open spec fn edge_json(e: (Seq<char>, Seq<char>, EdgeKind)) -> Seq<char> {
    "{\"from\": "@ + json_str(e.0) + ", \"to\": "@ + json_str(e.1) + ", \"kind\": "@ + json_str(kind_text(e.2))
        + "}"@
}

/// One dependency entry: the hole and the holes it depends on.
pub open spec fn dep_entry_json(k: Seq<char>, deps: Seq<Seq<char>>) -> Seq<char> {
    json_str(k) + ": ["@ + json_strs(deps) + "]"@
}

/// The JSON text of a graph given its holes in increasing order with their
/// dependencies in increasing order, its sorted edges, its roots and a fill
/// order.
pub open spec fn graph_json(
    keys: Seq<Seq<char>>,
    deps: Seq<Seq<Seq<char>>>,
    edges: Seq<(Seq<char>, Seq<char>, EdgeKind)>,
    roots: Seq<Seq<char>>,
    order: Seq<Seq<char>>,
) -> Seq<char> {
    "{\n"@ + "    \"dependencies\": {"@ + join_with(
        Seq::new(keys.len(), |i: int| dep_entry_json(keys[i], deps[i])),
        ", "@,
    ) + "},\n"@ + "    \"edges\": ["@ + join_with(edges.map_values(|e: (Seq<char>, Seq<char>, EdgeKind)| edge_json(e)), ", "@)
        + "],\n"@ + "    \"roots\": ["@ + json_strs(roots) + "],\n"@ + "    \"suggested_order\": ["@ + json_strs(order)
        + "]\n"@ + "  }"@
}

fn hex_digit_char(d: u32) -> (c: char)
    requires
        d < 16,
    ensures
        c == hex_digit(d as nat),
{
    if d == 0 { '0' }
    else if d == 1 { '1' }
    else if d == 2 { '2' }
    else if d == 3 { '3' }
    else if d == 4 { '4' }
    else if d == 5 { '5' }
    else if d == 6 { '6' }
    else if d == 7 { '7' }
    else if d == 8 { '8' }
    else if d == 9 { '9' }
    else if d == 10 { 'a' }
    else if d == 11 { 'b' }
    else if d == 12 { 'c' }
    else if d == 13 { 'd' }
    else if d == 14 { 'e' }
    else { 'f' }
}

/// Escape a string for JSON output, quotes included.
pub fn json_escape(s: &str) -> (r: String)
    ensures
        r@ == json_str(s@),
{
    let cs = chars_of(s);
    let mut out = String::new();
    push_char(&mut out, '"');
    let mut i: usize = 0;
    while i < cs.len()
        invariant
            i <= cs@.len(),
            cs@ == s@,
            out@ == seq!['"'] + escape_text(s@.take(i as int)),
        decreases cs.len() - i,
    {
        let c = cs[i];
        let ghost before = out@;
        if c == '"' {
            push_char(&mut out, '\\');
            push_char(&mut out, '"');
        } else if c == '\\' {
            push_char(&mut out, '\\');
            push_char(&mut out, '\\');
        } else if c == '\n' {
            push_char(&mut out, '\\');
            push_char(&mut out, 'n');
        } else if c == '\r' {
            push_char(&mut out, '\\');
            push_char(&mut out, 'r');
        } else if c == '\t' {
            push_char(&mut out, '\\');
            push_char(&mut out, 't');
        } else if (c as u32) < 0x20 {
            let code = c as u32;
            push_char(&mut out, '\\');
            push_char(&mut out, 'u');
            push_char(&mut out, '0');
            push_char(&mut out, '0');
            push_char(&mut out, hex_digit_char(code / 16));
            push_char(&mut out, hex_digit_char(code % 16));
        } else {
            push_char(&mut out, c);
        }
        assert(out@ =~= before + escape_char(c));
        assert(s@.take(i + 1).drop_last() =~= s@.take(i as int));
        assert(out@ =~= seq!['"'] + escape_text(s@.take(i + 1)));
        i = i + 1;
    }
    push_char(&mut out, '"');
    assert(s@.take(cs@.len() as int) =~= s@);
    assert(out@ =~= json_str(s@));
    out
}

/// Appends the names as `", "`-separated JSON strings.
fn push_json_list(out: &mut String, items: &[String])
    ensures
        final(out)@ == old(out)@ + json_strs(views(items@)),
{
    let ghost start = out@;
    let ghost js = views(items@).map_values(|x: Seq<char>| json_str(x));
    let mut i: usize = 0;
    while i < items.len()
        invariant
            i <= items@.len(),
            js == views(items@).map_values(|x: Seq<char>| json_str(x)),
            out@ == start + join_with(js.take(i as int), ", "@),
        decreases items.len() - i,
    {
        if i > 0 {
            out.append(", ");
        }
        let e = json_escape(items[i].as_str());
        out.append(e.as_str());
        proof {
            let t = js.take(i + 1);
            assert(t.drop_last() =~= js.take(i as int));
            assert(t.last() == json_str(items@[i as int]@));
            if i == 0 {
                assert(js.take(0) =~= Seq::<Seq<char>>::empty());
            }
        }
        assert(out@ =~= start + join_with(js.take(i + 1), ", "@));
        i = i + 1;
    }
    assert(js.take(items@.len() as int) =~= js);
}

/// A dependency graph between typed holes.
///
/// If hole A's type depends on hole B, then filling B first may help
/// resolve A's type. Each hole is stored with the set of holes it depends
/// on; the holes that depend on a hole are found from those sets.
#[derive(Debug)]
pub struct HoleDependencyGraph {
    /// Typed edges between holes, in the order they were recorded.
    edges: Vec<DependencyEdge>,
    /// hole name → the holes it depends on.
    dependencies: NameMap<EffectSet>,
}

impl View for HoleDependencyGraph {
    type V = Map<Seq<char>, Set<Seq<char>>>;

    closed spec fn view(&self) -> Map<Seq<char>, Set<Seq<char>>> {
        Map::new(
            |k: Seq<char>| self.dependencies@.contains_key(k),
            |k: Seq<char>| self.dependencies@[k]@,
        )
    }
}

impl Default for HoleDependencyGraph {
    fn default() -> (r: Self)
        ensures
            r@ == Map::<Seq<char>, Set<Seq<char>>>::empty(),
            r.edge_list() == Seq::<(Seq<char>, Seq<char>, EdgeKind)>::empty(),
    {
        Self::new()
    }
}

impl HoleDependencyGraph {
    /// The recorded edges, in recording order.
    pub closed spec fn edge_list(&self) -> Seq<(Seq<char>, Seq<char>, EdgeKind)> {
        self.edges@.map_values(|e: DependencyEdge| edge_view(e))
    }

    #[verifier::type_invariant]
    closed spec fn wf(&self) -> bool {
        forall|a: Seq<char>| #[trigger] self.dependencies@.contains_key(a)
            ==> self.dependencies@[a]@.subset_of(self.dependencies@.dom())
    }

    /// The sorted hole names (the keys of the dependency map).
    closed spec fn nodes(&self) -> Seq<Seq<char>> {
        self.dependencies.key_seq()
    }

    proof fn lemma_view_closed(&self)
        requires
            self.wf(),
        ensures
            closed_graph(self@),
            self@.dom() == self.dependencies@.dom(),
    {
        assert(self@.dom() =~= self.dependencies@.dom());
    }

    pub fn new() -> (r: Self)
        ensures
            r@ == Map::<Seq<char>, Set<Seq<char>>>::empty(),
            r.edge_list() == Seq::<(Seq<char>, Seq<char>, EdgeKind)>::empty(),
    {
        let r = HoleDependencyGraph { edges: Vec::new(), dependencies: NameMap::new() };
        assert(r@ =~= Map::<Seq<char>, Set<Seq<char>>>::empty());
        assert(r.edge_list() =~= Seq::<(Seq<char>, Seq<char>, EdgeKind)>::empty());
        r
    }

    /// Add a hole to the graph; one already present keeps its dependencies.
    pub fn add_hole(&mut self, name: String)
        ensures
            final(self)@ == with_hole(old(self)@, name@),
            final(self).edge_list() == old(self).edge_list(),
            closed_graph(final(self)@),
    {
        proof { use_type_invariant(&*self); }
        if !self.dependencies.contains_key(name.as_str()) {
            let ghost old_deps = self.dependencies@;
            let mut taken = HoleDependencyGraph::new();
            std::mem::swap(&mut taken, self);
            let HoleDependencyGraph { edges, dependencies: mut deps } = taken;
            deps.insert(name, EffectSet::new());
            assert(forall|a: Seq<char>| #[trigger] old_deps.contains_key(a) ==> old_deps[a]@.subset_of(
                deps@.dom(),
            ));
            *self = HoleDependencyGraph { edges, dependencies: deps };
        }
        proof {
            use_type_invariant(&*self);
            self.lemma_view_closed();
        }
        assert(self@ =~= with_hole(old(self)@, name@));
    }

    /// Record that `hole` depends on `dependency` (filling the dependency
    /// may help resolve the hole), as a type dependency.
    pub fn add_dependency(&mut self, hole: String, dependency: String)
        ensures
            final(self)@ == with_dependency(old(self)@, hole@, dependency@),
            final(self).edge_list() == old(self).edge_list().push(
                (dependency@, hole@, EdgeKind::Type),
            ),
            closed_graph(final(self)@),
    {
        self.add_dependency_typed(hole, dependency, EdgeKind::Type);
    }

    /// Record a typed dependency: `hole` depends on `dependency` via `kind`.
    pub fn add_dependency_typed(&mut self, hole: String, dependency: String, kind: EdgeKind)
        ensures
            final(self)@ == with_dependency(old(self)@, hole@, dependency@),
            final(self).edge_list() == old(self).edge_list().push((dependency@, hole@, kind)),
            closed_graph(final(self)@),
    {
        self.add_hole(hole.clone());
        self.add_hole(dependency.clone());
        proof {
            use_type_invariant(&*self);
            self.lemma_view_closed();
        }
        let ghost mid = self@;
        let ghost mid_deps = self.dependencies@;
        let mut set = match self.dependencies.get(hole.as_str()) {
            Some(s) => s.clone(),
            None => EffectSet::new(),
        };
        set.insert(dependency.clone());
        assert(mid_deps.contains_key(hole@));
        assert(mid_deps.contains_key(dependency@));
        assert(set@ == mid_deps[hole@]@.insert(dependency@));
        assert(set@.subset_of(mid_deps.dom()));
        let mut taken = HoleDependencyGraph::new();
        std::mem::swap(&mut taken, self);
        let HoleDependencyGraph { edges: mut edges, dependencies: mut deps } = taken;
        deps.insert(hole.clone(), set);
        assert(forall|a: Seq<char>| #[trigger] mid_deps.contains_key(a) ==> mid_deps[a]@.subset_of(
            deps@.dom(),
        ));
        edges.push(DependencyEdge { from: dependency, to: hole, kind });
        *self = HoleDependencyGraph { edges, dependencies: deps };
        proof {
            use_type_invariant(&*self);
            self.lemma_view_closed();
        }
        assert(self@ =~= with_dependency(old(self)@, hole@, dependency@));
        assert(self.edge_list() =~= old(self).edge_list().push((dependency@, hole@, kind)));
    }

    /// The names of the holes at the kept positions of the sorted hole list.
    closed spec fn picked(nodes: Seq<Seq<char>>, keep: Seq<bool>, upto: int) -> Set<Seq<char>> {
        Set::new(|x: Seq<char>| exists|j: int| 0 <= j < upto && #[trigger] keep[j] && nodes[j] == x)
    }

    /// The hole names at the kept positions, in increasing order.
    fn select(&self, keep: &Vec<bool>) -> (r: Vec<String>)
        requires
            keep@.len() == self.nodes().len(),
        ensures
            sorted(views(r@)),
            views(r@).to_set() == Self::picked(self.nodes(), keep@, keep@.len() as int),
    {
        let n = self.dependencies.len();
        let ghost nodes = self.nodes();
        let mut r: Vec<String> = Vec::new();
        let mut i: usize = 0;
        while i < n
            invariant
                n == nodes.len(),
                nodes == self.nodes(),
                sorted(nodes),
                keep@.len() == n,
                i <= n,
                sorted(views(r@)),
                forall|k: int| 0 <= k < r@.len() ==> nodes.take(i as int).contains(#[trigger] views(r@)[k]),
                views(r@).to_set() == Self::picked(nodes, keep@, i as int),
            decreases n - i,
        {
            let ghost before = views(r@);
            if keep[i] {
                let name = self.dependencies.key_at(i).clone();
                proof {
                    assert forall|k: int| 0 <= k < before.len() implies str_lt(#[trigger] before[k], nodes[i as int]) by {
                        assert(before[k] == views(r@)[k]);
                        assert(nodes.take(i as int).contains(before[k]));
                        let j = choose|j: int| 0 <= j < i && nodes.take(i as int)[j] == before[k];
                        assert(nodes[j] == before[k]);
                    }
                    crate::names::lemma_sorted_push(before, nodes[i as int]);
                }
                r.push(name);
                assert(views(r@) =~= before.push(nodes[i as int]));
                proof { before.lemma_push_to_set_commute(nodes[i as int]); }
            }
            assert forall|k: int| 0 <= k < r@.len() implies nodes.take(i + 1).contains(#[trigger] views(r@)[k]) by {
                if k < before.len() {
                    assert(views(r@)[k] == before[k]);
                    assert(nodes.take(i as int).contains(before[k]));
                    let j = choose|j: int| 0 <= j < i && nodes.take(i as int)[j] == before[k];
                    assert(nodes.take(i + 1)[j] == before[k]);
                } else {
                    assert(nodes.take(i + 1)[i as int] == views(r@)[k]);
                }
            }
            assert(views(r@).to_set() =~= Self::picked(nodes, keep@, i + 1)) by {
                assert forall|x: Seq<char>| Self::picked(nodes, keep@, i + 1).contains(x) implies #[trigger] views(r@).to_set().contains(x) by {
                    let j = choose|j: int| 0 <= j < i + 1 && #[trigger] keep@[j] && nodes[j] == x;
                    if j < i {
                        assert(Self::picked(nodes, keep@, i as int).contains(x));
                        assert(before.to_set().contains(x));
                        if keep[i as int] {
                            assert(before.push(nodes[i as int]).to_set().contains(x));
                        }
                    } else {
                        assert(views(r@)[views(r@).len() - 1] == x);
                    }
                }
                assert forall|x: Seq<char>| #[trigger] views(r@).to_set().contains(x) implies Self::picked(nodes, keep@, i + 1).contains(x) by {
                    if keep[i as int] && x == nodes[i as int] {
                        assert(keep@[i as int]);
                    } else {
                        if keep[i as int] {
                            assert(before.push(nodes[i as int]).to_set().contains(x));
                        }
                        assert(before.to_set().contains(x));
                        assert(Self::picked(nodes, keep@, i as int).contains(x));
                        let j = choose|j: int| 0 <= j < i && #[trigger] keep@[j] && nodes[j] == x;
                    }
                }
            }
            i = i + 1;
        }
        r
    }

    /// Get holes that have no dependencies (they can be filled first), in
    /// increasing order.
    pub fn roots(&self) -> (r: Vec<String>)
        ensures
            sorted(views(r@)),
            views(r@).to_set() == root_set(self@),
    {
        proof { use_type_invariant(self); }
        let n = self.dependencies.len();
        let ghost nodes = self.nodes();
        let mut keep: Vec<bool> = Vec::new();
        let mut i: usize = 0;
        while i < n
            invariant
                n == nodes.len(),
                nodes == self.nodes(),
                i <= n,
                keep@.len() == i,
                forall|j: int| 0 <= j < i ==> #[trigger] keep@[j] == (self@[nodes[j]] == Set::<Seq<char>>::empty()),
            decreases n - i,
        {
            let deps = self.dependencies.value_at(i);
            keep.push(deps.is_empty());
            i = i + 1;
        }
        let r = self.select(&keep);
        proof {
            self.lemma_view_closed();
            assert(views(r@).to_set() =~= root_set(self@)) by {
                assert forall|x: Seq<char>| #[trigger] root_set(self@).contains(x) implies Self::picked(nodes, keep@, n as int).contains(x) by {
                    assert(self.dependencies@.dom().contains(x));
                    assert(nodes.to_set().contains(x));
                    let j = choose|j: int| 0 <= j < nodes.len() && nodes[j] == x;
                    assert(keep@[j]);
                }
                assert forall|x: Seq<char>| Self::picked(nodes, keep@, n as int).contains(x) implies #[trigger] root_set(self@).contains(x) by {
                    let j = choose|j: int| 0 <= j < n && #[trigger] keep@[j] && nodes[j] == x;
                    assert(nodes.to_set().contains(x));
                }
            }
        }
        r
    }

    /// The holes that `hole` depends on, in increasing order.
    pub fn dependencies_of(&self, hole: &str) -> (r: Vec<String>)
        ensures
            sorted(views(r@)),
            views(r@).to_set() == (if self@.contains_key(hole@) {
                self@[hole@]
            } else {
                Set::<Seq<char>>::empty()
            }),
    {
        match self.dependencies.get(hole) {
            Some(set) => {
                let names = set.iter();
                let mut r: Vec<String> = Vec::new();
                let mut i: usize = 0;
                while i < names.len()
                    invariant
                        i <= names@.len(),
                        views(r@) == views(names@).take(i as int),
                    decreases names.len() - i,
                {
                    let c = names[i].clone();
                    assert(c@ == views(names@)[i as int]);
                    let ghost old_r = r@;
                    r.push(c);
                    assert(views(r@) =~= views(old_r).push(c@));
                    assert(views(names@).take(i + 1) =~= views(names@).take(i as int).push(c@));
                    assert(views(r@) =~= views(names@).take(i + 1));
                    i = i + 1;
                }
                assert(views(names@).take(names@.len() as int) =~= views(names@));
                r
            },
            None => {
                let r: Vec<String> = Vec::new();
                assert(views(r@).to_set() =~= Set::<Seq<char>>::empty());
                r
            },
        }
    }

    /// The holes that depend on `hole`, in increasing order.
    pub fn dependents_of(&self, hole: &str) -> (r: Vec<String>)
        ensures
            sorted(views(r@)),
            views(r@).to_set() == dependents_in(self@, hole@),
    {
        let n = self.dependencies.len();
        let ghost nodes = self.nodes();
        let mut keep: Vec<bool> = Vec::new();
        let mut i: usize = 0;
        while i < n
            invariant
                n == nodes.len(),
                nodes == self.nodes(),
                i <= n,
                keep@.len() == i,
                forall|j: int| 0 <= j < i ==> #[trigger] keep@[j] == self@[nodes[j]].contains(hole@),
            decreases n - i,
        {
            let deps = self.dependencies.value_at(i);
            keep.push(deps.contains(hole));
            i = i + 1;
        }
        let r = self.select(&keep);
        assert(self@.dom() =~= self.dependencies@.dom());
        assert(views(r@).to_set() =~= dependents_in(self@, hole@)) by {
            assert forall|x: Seq<char>| #[trigger] dependents_in(self@, hole@).contains(x) implies Self::picked(nodes, keep@, n as int).contains(x) by {
                assert(nodes.to_set().contains(x));
                let j = choose|j: int| 0 <= j < nodes.len() && nodes[j] == x;
                assert(keep@[j]);
            }
            assert forall|x: Seq<char>| Self::picked(nodes, keep@, n as int).contains(x) implies #[trigger] dependents_in(self@, hole@).contains(x) by {
                let j = choose|j: int| 0 <= j < n && #[trigger] keep@[j] && nodes[j] == x;
                assert(nodes.to_set().contains(x));
            }
        }
        r
    }

    /// Position `x` occurs in `q`.
    closed spec fn in_queue(q: Seq<usize>, x: int) -> bool {
        q.contains(x as usize)
    }

    /// Position `x` does not occur in `q`.
    closed spec fn left_out(q: Seq<usize>, x: int) -> bool {
        !q.contains(x as usize)
    }

    /// Hole `i` (in sorted position) depends on hole `k`.
    closed spec fn dep_at(&self, i: int, k: int) -> bool {
        self@[self.nodes()[i]].contains(self.nodes()[k])
    }

    /// Position `j` has no dependencies.
    closed spec fn root_at(&self, j: int) -> bool {
        forall|k: int| 0 <= k < self.nodes().len() ==> !#[trigger] self.dep_at(j, k)
    }

    /// The positions below `m` with no dependencies, in increasing order.
    closed spec fn roots_upto(&self, m: nat) -> Seq<usize>
        decreases m,
    {
        if m == 0 {
            Seq::empty()
        } else if self.root_at(m - 1) {
            self.roots_upto((m - 1) as nat).push((m - 1) as usize)
        } else {
            self.roots_upto((m - 1) as nat)
        }
    }

    /// Position `j` becomes ready once the hole at `q[h]` is filled: it is
    /// not queued, depends on that hole, and all its dependencies are among
    /// `q[0..=h]`.
    closed spec fn ready_at(&self, q: Seq<usize>, h: int, j: int) -> bool {
        &&& !q.contains(j as usize)
        &&& self.dep_at(j, q[h] as int)
        &&& forall|k: int|
            0 <= k < self.nodes().len() && #[trigger] self.dep_at(j, k) ==> q.take(h + 1).contains(k as usize)
    }

    /// The positions below `m` that become ready once `q[h]` is filled, in
    /// increasing order.
    closed spec fn ready_upto(&self, q: Seq<usize>, h: int, m: nat) -> Seq<usize>
        decreases m,
    {
        if m == 0 {
            Seq::empty()
        } else if self.ready_at(q, h, m - 1) {
            self.ready_upto(q, h, (m - 1) as nat).push((m - 1) as usize)
        } else {
            self.ready_upto(q, h, (m - 1) as nat)
        }
    }

    /// The queue grown from `q` by filling its holes from position `h` on.
    closed spec fn settle_from(&self, q: Seq<usize>, h: nat) -> Seq<usize>
        decreases self.nodes().len() - h,
    {
        if h >= q.len() || q.len() > self.nodes().len() {
            q
        } else {
            self.settle_from(q + self.ready_upto(q, h as int, self.nodes().len()), h + 1)
        }
    }

    /// The dependencies of every hole lie at some position of the sorted
    /// hole list.
    proof fn lemma_dep_positions(&self, i: int, d: Seq<char>)
        requires
            self.wf(),
            sorted(self.nodes()),
            self.dependencies@.dom() == self.nodes().to_set(),
            0 <= i < self.nodes().len(),
            self@[self.nodes()[i]].contains(d),
        ensures
            exists|k: int| 0 <= k < self.nodes().len() && self.nodes()[k] == d && #[trigger] self.dep_at(i, k),
    {
        let nodes = self.nodes();
        assert(nodes.to_set().contains(nodes[i]));
        assert(self.dependencies@.contains_key(nodes[i]));
        assert(self.dependencies@[nodes[i]]@.contains(d));
        assert(nodes.to_set().contains(d));
        let k = choose|k: int| 0 <= k < nodes.len() && nodes[k] == d;
        assert(self.dep_at(i, k));
    }

    /// Distinct positions below `n` are at most `n` many.
    proof fn lemma_distinct_bounded(s: Seq<usize>, n: int)
        requires
            s.no_duplicates(),
            0 <= n,
            forall|p: int| 0 <= p < s.len() ==> #[trigger] s[p] < n,
        ensures
            s.len() <= n,
    {
        let t = s.map_values(|x: usize| x as int);
        assert(t.no_duplicates()) by {
            assert forall|a: int, b: int| 0 <= a < t.len() && 0 <= b < t.len() && a != b implies t[a] != t[b] by {
                assert(s[a] != s[b]);
            }
        }
        t.unique_seq_to_set();
        vstd::set_lib::lemma_int_range(0, n);
        assert(t.to_set().subset_of(vstd::set_lib::set_int_range(0, n))) by {
            assert forall|x: int| t.to_set().contains(x) implies vstd::set_lib::set_int_range(0, n).contains(x) by {
                let p = choose|p: int| 0 <= p < t.len() && t[p] == x;
                assert(s[p] < n);
            }
        }
        vstd::set_lib::lemma_len_subset(t.to_set(), vstd::set_lib::set_int_range(0, n));
    }

    /// Whether every dependency of hole `j` is marked.
    fn all_deps_marked(&self, j: usize, mark: &Vec<bool>) -> (b: bool)
        requires
            j < self.nodes().len(),
            mark@.len() == self.nodes().len(),
        ensures
            b == (forall|k: int| 0 <= k < self.nodes().len() && #[trigger] self.dep_at(j as int, k) ==> mark@[k]),
    {
        proof { use_type_invariant(self); }
        let n = self.dependencies.len();
        let ghost nodes = self.nodes();
        let names = self.dependencies.value_at(j).iter();
        let ghost ds = views(names@);
        assert(ds.to_set() == self@[nodes[j as int]]);
        let mut t: usize = 0;
        while t < names.len()
            invariant
                n == nodes.len(),
                nodes == self.nodes(),
                sorted(nodes),
                self.dependencies@.dom() == nodes.to_set(),
                self.wf(),
                j < n,
                mark@.len() == n,
                ds == views(names@),
                ds.to_set() == self@[nodes[j as int]],
                t <= names@.len(),
                forall|u: int, k: int| 0 <= u < t && 0 <= k < n && nodes[k] == #[trigger] ds[u] ==> #[trigger] mark@[k],
            decreases names.len() - t,
        {
            assert(ds.to_set().contains(ds[t as int]));
            match self.dependencies.index_of(names[t].as_str()) {
                Some(k) => {
                    if !mark[k] {
                        assert(self.dep_at(j as int, k as int));
                        return false;
                    }
                    proof {
                        lemma_sorted_no_duplicates(nodes);
                    }
                },
                None => {
                    proof {
                        self.lemma_dep_positions(j as int, ds[t as int]);
                        assert(nodes.to_set().contains(ds[t as int]));
                    }
                },
            }
            t = t + 1;
        }
        assert forall|k: int| 0 <= k < n && #[trigger] self.dep_at(j as int, k) implies mark@[k] by {
            assert(ds.to_set().contains(nodes[k]));
            let u = choose|u: int| 0 <= u < ds.len() && ds[u] == nodes[k];
        }
        true
    }

    /// Fill order in positions: repeatedly fill a hole whose dependencies
    /// are all filled, first the holes without dependencies in increasing
    /// order, then, in turn, each filled hole's dependents in increasing
    /// order as they become ready. Every hole that can ever be filled so is
    /// in the result, each once.
    fn settle(&self) -> (queue: Vec<usize>)
        ensures
            queue@ == self.settle_from(self.roots_upto(self.nodes().len()), 0),
            queue@.no_duplicates(),
            queue@.len() <= self.nodes().len(),
            forall|p: int| 0 <= p < queue@.len() ==> #[trigger] queue@[p] < self.nodes().len(),
            forall|p: int, k: int|
                0 <= p < queue@.len() && 0 <= k < self.nodes().len() && #[trigger] self.dep_at(queue@[p] as int, k)
                    ==> queue@.take(p).contains(k as usize),
            forall|x: int|
                0 <= x < self.nodes().len() && #[trigger] Self::left_out(queue@, x) ==> exists|k: int|
                    0 <= k < self.nodes().len() && #[trigger] self.dep_at(x, k) && !Self::in_queue(queue@, k),
    {
        proof { use_type_invariant(self); }
        let n = self.dependencies.len();
        let ghost nodes = self.nodes();
        let mut popped: Vec<bool> = Vec::new();
        let mut queued: Vec<bool> = Vec::new();
        let mut queue: Vec<usize> = Vec::new();
        let mut i: usize = 0;
        while i < n
            invariant
                n == nodes.len(),
                nodes == self.nodes(),
                sorted(nodes),
                self.dependencies@.dom() == nodes.to_set(),
                self.wf(),
                i <= n,
                popped@.len() == i,
                queued@.len() == i,
                forall|x: int| 0 <= x < i ==> !#[trigger] popped@[x],
                queue@.no_duplicates(),
                forall|p: int| 0 <= p < queue@.len() ==> #[trigger] queue@[p] < i,
                forall|x: int| 0 <= x < i ==> #[trigger] queued@[x] == queue@.contains(x as usize),
                forall|p: int, k: int| 0 <= p < queue@.len() && 0 <= k < n ==> !#[trigger] self.dep_at(queue@[p] as int, k),
                forall|x: int| 0 <= x < i && !#[trigger] queued@[x] ==> exists|k: int| 0 <= k < n && #[trigger] self.dep_at(x, k),
                queue@ == self.roots_upto(i as nat),
            decreases n - i,
        {
            let ready = self.dependencies.value_at(i).is_empty();
            popped.push(false);
            if ready {
                proof {
                    assert forall|k: int| 0 <= k < n implies !#[trigger] self.dep_at(i as int, k) by {}
                    assert(!queue@.contains(i));
                }
                let ghost q0 = queue@;
                assert(self.root_at(i as int));
                queue.push(i);
                assert forall|p: int| 0 <= p < queue@.len() implies #[trigger] queue@[p] < i + 1 by {
                    if p < q0.len() {
                        assert(queue@[p] == q0[p]);
                    }
                }
                queued.push(true);
                assert forall|x: int| 0 <= x < i + 1 implies #[trigger] queued@[x] == queue@.contains(x as usize) by {
                    if x < i {
                        if queue@.contains(x as usize) {
                            let p = choose|p: int| 0 <= p < queue@.len() && queue@[p] == x as usize;
                            assert(p < q0.len());
                            assert(q0[p] == x as usize);
                        }
                        if q0.contains(x as usize) {
                            let p = choose|p: int| 0 <= p < q0.len() && q0[p] == x as usize;
                            assert(queue@[p] == x as usize);
                        }
                    } else {
                        assert(queue@[q0.len() as int] == i);
                    }
                }
            } else {
                proof {
                    assert(self.dependencies@.dom().contains(nodes[i as int]));
                    assert(self.dependencies@[nodes[i as int]]@ == self@[nodes[i as int]]);
                    if forall|d: Seq<char>| !self@[nodes[i as int]].contains(d) {
                        assert(self@[nodes[i as int]] =~= Set::<Seq<char>>::empty());
                    }
                    let d = choose|d: Seq<char>| self@[nodes[i as int]].contains(d);
                    self.lemma_dep_positions(i as int, d);
                }
                let ghost q0 = queue@;
                queued.push(false);
                assert(queue@ == q0);
                assert(!self.root_at(i as int));
            }
            i = i + 1;
        }
        proof { Self::lemma_distinct_bounded(queue@, n as int); }
        let mut head: usize = 0;
        while head < queue.len()
            invariant
                n == nodes.len(),
                nodes == self.nodes(),
                sorted(nodes),
                self.dependencies@.dom() == nodes.to_set(),
                self.wf(),
                head <= queue@.len(),
                queue@.len() <= n,
                popped@.len() == n,
                queued@.len() == n,
                queue@.no_duplicates(),
                forall|p: int| 0 <= p < queue@.len() ==> #[trigger] queue@[p] < n,
                forall|x: int| 0 <= x < n ==> #[trigger] queued@[x] == queue@.contains(x as usize),
                forall|x: int| 0 <= x < n ==> #[trigger] popped@[x] == queue@.take(head as int).contains(x as usize),
                forall|p: int, k: int|
                    0 <= p < queue@.len() && 0 <= k < n && #[trigger] self.dep_at(queue@[p] as int, k)
                        ==> queue@.take(p).contains(k as usize),
                forall|x: int| 0 <= x < n && !#[trigger] queued@[x] ==> exists|k: int|
                    0 <= k < n && #[trigger] self.dep_at(x, k) && !popped@[k],
                self.settle_from(queue@, head as nat) == self.settle_from(self.roots_upto(n as nat), 0),
            decreases n - head,
        {
            let cur = queue[head];
            let ghost q_before = queue@;
            let ghost h = head as int;
            let ghost popped_before = popped@;
            popped.set(cur, true);
            head = head + 1;
            assert(queue@.take(head as int) =~= q_before.take(head - 1).push(cur));
            assert forall|x: int| 0 <= x < n implies #[trigger] popped@[x] == queue@.take(head as int).contains(x as usize) by {
                if x == cur {
                    assert(queue@.take(head as int)[head - 1] == cur);
                } else {
                    assert(popped@[x] == popped_before[x]);
                    if queue@.take(head as int).contains(x as usize) {
                        let p = choose|p: int| 0 <= p < head && #[trigger] queue@.take(head as int)[p] == x as usize;
                        assert(p < head - 1);
                        assert(q_before.take(head - 1)[p] == x as usize);
                    }
                    if q_before.take(head - 1).contains(x as usize) {
                        let p = choose|p: int| 0 <= p < head - 1 && #[trigger] q_before.take(head - 1)[p] == x as usize;
                        assert(queue@.take(head as int)[p] == x as usize);
                    }
                }
            }
            let cur_name = self.dependencies.key_at(cur);
            let mut j: usize = 0;
            while j < n
                invariant
                    n == nodes.len(),
                    nodes == self.nodes(),
                    sorted(nodes),
                    self.dependencies@.dom() == nodes.to_set(),
                    self.wf(),
                    cur < n,
                    cur_name@ == nodes[cur as int],
                    1 <= head <= queue@.len(),
                    queue@.len() <= n,
                    popped@.len() == n,
                    queued@.len() == n,
                    j <= n,
                    popped@[cur as int],
                    queue@.no_duplicates(),
                    forall|p: int| 0 <= p < queue@.len() ==> #[trigger] queue@[p] < n,
                    forall|x: int| 0 <= x < n ==> #[trigger] queued@[x] == queue@.contains(x as usize),
                    forall|x: int| 0 <= x < n ==> #[trigger] popped@[x] == queue@.take(head as int).contains(x as usize),
                    forall|p: int, k: int|
                        0 <= p < queue@.len() && 0 <= k < n && #[trigger] self.dep_at(queue@[p] as int, k)
                            ==> queue@.take(p).contains(k as usize),
                    forall|x: int| 0 <= x < j && !#[trigger] queued@[x] ==> exists|k: int|
                        0 <= k < n && #[trigger] self.dep_at(x, k) && !popped@[k],
                    forall|x: int| j <= x < n && !#[trigger] queued@[x] ==> exists|k: int|
                        0 <= k < n && #[trigger] self.dep_at(x, k) && (!popped@[k] || k == cur),
                    h + 1 == head,
                    h < q_before.len(),
                    q_before.len() <= n,
                    cur == q_before[h],
                    queue@ == q_before + self.ready_upto(q_before, h, j as nat),
                    self.settle_from(q_before, h as nat) == self.settle_from(self.roots_upto(n as nat), 0),
                decreases n - j,
            {
                proof {
                    self.lemma_ready_upto(q_before, h, j as nat);
                    assert(queue@.take(head as int) =~= q_before.take(h + 1));
                    assert(queue@.contains(j) == q_before.contains(j)) by {
                        if queue@.contains(j) && !q_before.contains(j) {
                            let p = choose|p: int| 0 <= p < queue@.len() && queue@[p] == j;
                            assert(self.ready_upto(q_before, h, j as nat)[p - q_before.len()] == j);
                        }
                        if q_before.contains(j) {
                            let p = choose|p: int| 0 <= p < q_before.len() && q_before[p] == j;
                            assert(queue@[p] == j);
                        }
                    }
                    assert(self.dependencies@[nodes[j as int]]@ == self@[nodes[j as int]]);
                }
                let ghost q_in = queue@;
                if !queued[j] && self.dependencies.value_at(j).contains(cur_name.as_str())
                    && self.all_deps_marked(j, &popped) {
                    proof {
                        assert(!queue@.contains(j));
                        let s2 = queue@.push(j);
                        assert(s2.no_duplicates());
                        assert forall|p: int| 0 <= p < s2.len() implies #[trigger] s2[p] < n by {
                            if p < queue@.len() {
                                assert(s2[p] == queue@[p]);
                            }
                        }
                        Self::lemma_distinct_bounded(s2, n as int);
                    }
                    let ghost q0 = queue@;
                    queue.push(j);
                    queued.set(j, true);
                    assert(queue@.take(head as int) =~= q0.take(head as int));
                    assert forall|p: int| 0 <= p < queue@.len() implies #[trigger] queue@[p] < n by {
                        if p < q0.len() {
                            assert(queue@[p] == q0[p]);
                        }
                    }
                    assert forall|x: int| 0 <= x < n implies #[trigger] queued@[x] == queue@.contains(x as usize) by {
                        if x != j {
                            if queue@.contains(x as usize) {
                                let p = choose|p: int| 0 <= p < queue@.len() && queue@[p] == x as usize;
                                assert(q0[p] == x as usize);
                            }
                            if q0.contains(x as usize) {
                                let p = choose|p: int| 0 <= p < q0.len() && q0[p] == x as usize;
                                assert(queue@[p] == x as usize);
                            }
                        } else {
                            assert(queue@[q0.len() as int] == j);
                        }
                    }
                    assert forall|x: int| 0 <= x < n implies #[trigger] popped@[x] == queue@.take(head as int).contains(x as usize) by {}
                    assert forall|p: int, k: int|
                        0 <= p < queue@.len() && 0 <= k < n && #[trigger] self.dep_at(queue@[p] as int, k)
                            implies queue@.take(p).contains(k as usize) by {
                        if p < q0.len() {
                            assert(queue@[p] == q0[p]);
                            assert(q0.take(p) =~= queue@.take(p));
                        } else {
                            assert(popped@[k]);
                            let r = choose|r: int| 0 <= r < head && queue@.take(head as int)[r] == k as usize;
                            assert(queue@.take(p)[r] == k as usize);
                        }
                    }
                }
                proof {
                    if self.ready_at(q_before, h, j as int) {
                        assert(queue@ =~= q_before + self.ready_upto(q_before, h, (j + 1) as nat));
                    } else {
                        assert(queue@ =~= q_before + self.ready_upto(q_before, h, (j + 1) as nat));
                    }
                }
                j = j + 1;
            }
        }
        assert(queue@.take(head as int) =~= queue@);
        assert forall|x: int| 0 <= x < n && #[trigger] Self::left_out(queue@, x) implies exists|k: int|
            0 <= k < n && #[trigger] self.dep_at(x, k) && !Self::in_queue(queue@, k) by {
            assert(!queued@[x]);
        }
        queue
    }

    /// The positions of `ready_upto` lie below `m`, increase, become ready,
    /// and include every position below `m` that becomes ready.
    proof fn lemma_ready_upto(&self, q: Seq<usize>, h: int, m: nat)
        requires
            m <= usize::MAX,
        ensures
            ({
                let r = self.ready_upto(q, h, m);
                &&& forall|p: int| 0 <= p < r.len() ==> (#[trigger] r[p] as int) < m && self.ready_at(q, h, r[p] as int)
                &&& forall|a: int, b: int| 0 <= a < b < r.len() ==> #[trigger] r[a] < #[trigger] r[b]
                &&& forall|j: int| 0 <= j < m && #[trigger] self.ready_at(q, h, j) ==> r.contains(j as usize)
            }),
        decreases m,
    {
        if m > 0 {
            self.lemma_ready_upto(q, h, (m - 1) as nat);
            let r0 = self.ready_upto(q, h, (m - 1) as nat);
            let r = self.ready_upto(q, h, m);
            if self.ready_at(q, h, m - 1) {
                assert(r == r0.push((m - 1) as usize));
                assert forall|p: int| 0 <= p < r.len() implies (#[trigger] r[p] as int) < m && self.ready_at(q, h, r[p] as int) by {
                    if p < r0.len() {
                        assert(r[p] == r0[p]);
                    }
                }
                assert forall|a: int, b: int| 0 <= a < b < r.len() implies #[trigger] r[a] < #[trigger] r[b] by {
                    assert(r[a] == r0[a]);
                    if b < r0.len() {
                        assert(r[b] == r0[b]);
                    }
                }
                assert forall|j: int| 0 <= j < m && #[trigger] self.ready_at(q, h, j) implies r.contains(j as usize) by {
                    if j < m - 1 {
                        let p = choose|p: int| 0 <= p < r0.len() && r0[p] == j as usize;
                        assert(r[p] == j as usize);
                    } else {
                        assert(r[r0.len() as int] == j as usize);
                    }
                }
            } else {
                assert(r == r0);
            }
        }
    }

    /// The names of a sequence of positions.
    closed spec fn names_of(&self, q: Seq<usize>) -> Seq<Seq<char>> {
        q.map_values(|x: usize| self.nodes()[x as int])
    }

    /// The positions of `roots_upto` lie below `m`, increase, have no
    /// dependencies, and include every such position below `m`.
    proof fn lemma_roots_upto(&self, m: nat)
        requires
            m <= usize::MAX,
        ensures
            ({
                let r = self.roots_upto(m);
                &&& forall|p: int| 0 <= p < r.len() ==> (#[trigger] r[p] as int) < m && self.root_at(r[p] as int)
                &&& forall|a: int, b: int| 0 <= a < b < r.len() ==> #[trigger] r[a] < #[trigger] r[b]
                &&& forall|j: int| 0 <= j < m && #[trigger] self.root_at(j) ==> r.contains(j as usize)
            }),
        decreases m,
    {
        if m > 0 {
            self.lemma_roots_upto((m - 1) as nat);
            let r0 = self.roots_upto((m - 1) as nat);
            let r = self.roots_upto(m);
            if self.root_at(m - 1) {
                assert(r == r0.push((m - 1) as usize));
                assert forall|p: int| 0 <= p < r.len() implies (#[trigger] r[p] as int) < m && self.root_at(r[p] as int) by {
                    if p < r0.len() {
                        assert(r[p] == r0[p]);
                    }
                }
                assert forall|a: int, b: int| 0 <= a < b < r.len() implies #[trigger] r[a] < #[trigger] r[b] by {
                    assert(r[a] == r0[a]);
                    if b < r0.len() {
                        assert(r[b] == r0[b]);
                    }
                }
                assert forall|j: int| 0 <= j < m && #[trigger] self.root_at(j) implies r.contains(j as usize) by {
                    if j < m - 1 {
                        let p = choose|p: int| 0 <= p < r0.len() && r0[p] == j as usize;
                        assert(r[p] == j as usize);
                    } else {
                        assert(r[r0.len() as int] == j as usize);
                    }
                }
            } else {
                assert(r == r0);
            }
        }
    }

    /// Increasing positions name increasing holes.
    proof fn lemma_names_sorted(&self, r: Seq<usize>)
        requires
            sorted(self.nodes()),
            forall|p: int| 0 <= p < r.len() ==> (#[trigger] r[p] as int) < self.nodes().len(),
            forall|a: int, b: int| 0 <= a < b < r.len() ==> #[trigger] r[a] < #[trigger] r[b],
        ensures
            sorted(self.names_of(r)),
    {
        let l = self.names_of(r);
        assert forall|a: int, b: int| 0 <= a < b < l.len() implies str_lt(#[trigger] l[a], #[trigger] l[b]) by {
            assert(r[a] < r[b]);
        }
    }

    /// The holes that become ready once `q[h]` is filled, by name.
    proof fn lemma_ready_names(&self, q: Seq<usize>, h: int)
        requires
            self.wf(),
            sorted(self.nodes()),
            self.dependencies@.dom() == self.nodes().to_set(),
            self.nodes().len() <= usize::MAX,
            0 <= h < q.len(),
            forall|p: int| 0 <= p < q.len() ==> (#[trigger] q[p] as int) < self.nodes().len(),
        ensures
            self.names_of(self.ready_upto(q, h, self.nodes().len())) == sorted_listing(
                newly_ready(self@, self.names_of(q), h),
            ),
    {
        let nodes = self.nodes();
        let n = nodes.len();
        let r = self.ready_upto(q, h, n);
        self.lemma_ready_upto(q, h, n);
        lemma_sorted_no_duplicates(nodes);
        self.lemma_view_closed();
        let l = self.names_of(r);
        let nq = self.names_of(q);
        let st = newly_ready(self@, nq, h);
        self.lemma_names_sorted(r);
        assert forall|x: Seq<char>| l.to_set().contains(x) implies st.contains(x) by {
            let p = choose|p: int| 0 <= p < l.len() && l[p] == x;
            let j = r[p] as int;
            assert(self.ready_at(q, h, j));
            assert(nodes.to_set().contains(x));
            assert(!nq.contains(x)) by {
                if nq.contains(x) {
                    let t = choose|t: int| 0 <= t < nq.len() && nq[t] == x;
                    assert(nodes[q[t] as int] == nodes[j]);
                    assert(q[t] == j as usize);
                }
            }
            assert(self@[x].contains(nq[h]));
            assert forall|d: Seq<char>| self@[x].contains(d) implies nq.take(h + 1).to_set().contains(d) by {
                self.lemma_dep_positions(j, d);
                let k = choose|k: int| 0 <= k < n && nodes[k] == d && #[trigger] self.dep_at(j, k);
                assert(q.take(h + 1).contains(k as usize));
                let t = choose|t: int| 0 <= t < h + 1 && #[trigger] q.take(h + 1)[t] == k as usize;
                assert(nq.take(h + 1)[t] == d);
            }
        }
        assert forall|x: Seq<char>| st.contains(x) implies l.to_set().contains(x) by {
            assert(self@.dom().contains(x));
            assert(nodes.to_set().contains(x));
            let j = choose|j: int| 0 <= j < n && nodes[j] == x;
            assert(!q.contains(j as usize)) by {
                if q.contains(j as usize) {
                    let t = choose|t: int| 0 <= t < q.len() && q[t] == j as usize;
                    assert(nq[t] == x);
                }
            }
            assert forall|k: int| 0 <= k < n && #[trigger] self.dep_at(j, k) implies q.take(h + 1).contains(k as usize) by {
                assert(nq.take(h + 1).to_set().contains(nodes[k]));
                let t = choose|t: int| 0 <= t < h + 1 && #[trigger] nq.take(h + 1)[t] == nodes[k];
                assert(nodes[q[t] as int] == nodes[k]);
                assert(q.take(h + 1)[t] == k as usize);
            }
            assert(self.ready_at(q, h, j));
            assert(r.contains(j as usize));
            let p = choose|p: int| 0 <= p < r.len() && r[p] == j as usize;
            assert(l[p] == x);
        }
        assert(l.to_set() =~= st);
        assert(sorted(sorted_listing(st)) && sorted_listing(st).to_set() == st);
        lemma_sorted_unique(l, sorted_listing(st));
    }

    /// The holes without dependencies, by name.
    proof fn lemma_roots_names(&self)
        requires
            self.wf(),
            sorted(self.nodes()),
            self.dependencies@.dom() == self.nodes().to_set(),
            self.nodes().len() <= usize::MAX,
        ensures
            self.names_of(self.roots_upto(self.nodes().len())) == sorted_listing(root_set(self@)),
    {
        let nodes = self.nodes();
        let n = nodes.len();
        let r = self.roots_upto(n);
        self.lemma_roots_upto(n);
        lemma_sorted_no_duplicates(nodes);
        self.lemma_view_closed();
        let l = self.names_of(r);
        let st = root_set(self@);
        self.lemma_names_sorted(r);
        assert forall|x: Seq<char>| l.to_set().contains(x) implies st.contains(x) by {
            let p = choose|p: int| 0 <= p < l.len() && l[p] == x;
            let j = r[p] as int;
            assert(nodes.to_set().contains(x));
            assert(self@[x] =~= Set::<Seq<char>>::empty()) by {
                assert forall|d: Seq<char>| !self@[x].contains(d) by {
                    if self@[x].contains(d) {
                        self.lemma_dep_positions(j, d);
                        let k = choose|k: int| 0 <= k < n && nodes[k] == d && #[trigger] self.dep_at(j, k);
                    }
                }
            }
        }
        assert forall|x: Seq<char>| st.contains(x) implies l.to_set().contains(x) by {
            assert(nodes.to_set().contains(x));
            let j = choose|j: int| 0 <= j < n && nodes[j] == x;
            assert(self.root_at(j));
            assert(r.contains(j as usize));
            let p = choose|p: int| 0 <= p < r.len() && r[p] == j as usize;
            assert(l[p] == x);
        }
        assert(l.to_set() =~= st);
        assert(sorted(sorted_listing(st)) && sorted_listing(st).to_set() == st);
        lemma_sorted_unique(l, sorted_listing(st));
    }

    /// The settled queue, by name, is the fill queue.
    proof fn lemma_settle_names(&self, q: Seq<usize>, h: nat)
        requires
            self.wf(),
            sorted(self.nodes()),
            self.dependencies@.dom() == self.nodes().to_set(),
            self.nodes().len() <= usize::MAX,
            q.no_duplicates(),
            forall|p: int| 0 <= p < q.len() ==> (#[trigger] q[p] as int) < self.nodes().len(),
        ensures
            self.names_of(self.settle_from(q, h)) == fill_queue(self@, self.names_of(q), h),
        decreases self.nodes().len() - h,
    {
        let nodes = self.nodes();
        let n = nodes.len();
        lemma_sorted_no_duplicates(nodes);
        self.lemma_view_closed();
        nodes.unique_seq_to_set();
        assert(self@.dom().len() == n);
        if h >= q.len() || q.len() > n {
        } else {
            let r = self.ready_upto(q, h as int, n);
            self.lemma_ready_upto(q, h as int, n);
            self.lemma_ready_names(q, h as int);
            let q2 = q + r;
            assert(self.names_of(q2) =~= self.names_of(q) + self.names_of(r));
            assert(q2.no_duplicates()) by {
                assert forall|a: int, b: int| 0 <= a < b < q2.len() implies q2[a] != q2[b] by {
                    if b >= q.len() && a < q.len() {
                        assert(self.ready_at(q, h as int, r[b - q.len()] as int));
                        assert(q.contains(q2[a]));
                    } else if a >= q.len() {
                        assert(r[a - q.len()] < r[b - q.len()]);
                    }
                }
            }
            assert forall|p: int| 0 <= p < q2.len() implies (#[trigger] q2[p] as int) < n by {
                if p >= q.len() {
                    assert(q2[p] == r[p - q.len()]);
                }
            }
            self.lemma_settle_names(q2, h + 1);
        }
    }

    /// No member of a blocked set is among the first `p` settled holes.
    proof fn lemma_settled_not_blocked(&self, queue: Seq<usize>, bs: Set<Seq<char>>, p: int)
        requires
            forall|q: int| 0 <= q < queue.len() ==> #[trigger] queue[q] < self.nodes().len(),
            forall|q: int, k: int|
                0 <= q < queue.len() && 0 <= k < self.nodes().len() && #[trigger] self.dep_at(queue[q] as int, k)
                    ==> queue.take(q).contains(k as usize),
            self.wf(),
            sorted(self.nodes()),
            self.dependencies@.dom() == self.nodes().to_set(),
            blocked(self@, bs),
            0 <= p <= queue.len(),
            self.nodes().len() <= usize::MAX,
        ensures
            forall|q: int| 0 <= q < p ==> !bs.contains(#[trigger] self.nodes()[queue[q] as int]),
        decreases p,
    {
        if p > 0 {
            self.lemma_settled_not_blocked(queue, bs, p - 1);
            let nodes = self.nodes();
            let x = nodes[queue[p - 1] as int];
            if bs.contains(x) {
                lemma_blocked_elim(self@, bs, x);
                let d = choose|d: Seq<char>| #[trigger] self@[x].contains(d) && bs.contains(d);
                self.lemma_dep_positions(queue[p - 1] as int, d);
                let k = choose|k: int| 0 <= k < nodes.len() && nodes[k] == d && #[trigger] self.dep_at(queue[p - 1] as int, k);
                assert(queue.take(p - 1).contains(k as usize));
                let q = choose|q: int| 0 <= q < p - 1 && #[trigger] queue.take(p - 1)[q] == k as usize;
                assert(queue[q] == k as usize);
                assert(!bs.contains(nodes[queue[q] as int]));
            }
        }
    }

    /// A hole left out of the fill order is stuck.
    proof fn lemma_unsettled_stuck(&self, queue: Seq<usize>, x: int)
        requires
            forall|y: int|
                0 <= y < self.nodes().len() && #[trigger] Self::left_out(queue, y) ==> exists|k: int|
                    0 <= k < self.nodes().len() && #[trigger] self.dep_at(y, k) && !Self::in_queue(queue, k),
            self.dependencies@.dom() == self.nodes().to_set(),
            0 <= x < self.nodes().len(),
            !Self::in_queue(queue, x),
        ensures
            stuck(self@).contains(self.nodes()[x]),
    {
        let nodes = self.nodes();
        let un = Set::new(|y: Seq<char>| exists|z: int| 0 <= z < nodes.len() && !Self::in_queue(queue, z) && #[trigger] nodes[z] == y);
        assert(blocked(self@, un)) by {
            reveal(blocked);
            assert forall|y: Seq<char>| #[trigger] un.contains(y) implies exists|d: Seq<char>| #[trigger] self@[y].contains(d) && un.contains(d) by {
                let z = choose|z: int| 0 <= z < nodes.len() && !Self::in_queue(queue, z) && #[trigger] nodes[z] == y;
                assert(Self::left_out(queue, z));
                let k = choose|k: int| 0 <= k < nodes.len() && #[trigger] self.dep_at(z, k) && !Self::in_queue(queue, k);
                assert(un.contains(nodes[k]));
                assert(self@[y].contains(nodes[k]));
            }
        }
        assert(un.subset_of(self@.dom())) by {
            assert forall|y: Seq<char>| un.contains(y) implies self@.dom().contains(y) by {
                let z = choose|z: int| 0 <= z < nodes.len() && !Self::in_queue(queue, z) && #[trigger] nodes[z] == y;
                assert(nodes.to_set().contains(y));
                assert(self.dependencies@.dom().contains(y));
            }
        }
        assert(un.contains(nodes[x]));
        lemma_stuck_intro(self@, un, nodes[x]);
    }

    /// A hole in the fill order is not stuck.
    proof fn lemma_settled_not_stuck(&self, queue: Seq<usize>, x: int)
        requires
            forall|q: int| 0 <= q < queue.len() ==> #[trigger] queue[q] < self.nodes().len(),
            forall|q: int, k: int|
                0 <= q < queue.len() && 0 <= k < self.nodes().len() && #[trigger] self.dep_at(queue[q] as int, k)
                    ==> queue.take(q).contains(k as usize),
            self.wf(),
            sorted(self.nodes()),
            self.dependencies@.dom() == self.nodes().to_set(),
            0 <= x < self.nodes().len(),
            Self::in_queue(queue, x),
            self.nodes().len() <= usize::MAX,
        ensures
            !stuck(self@).contains(self.nodes()[x]),
    {
        if stuck(self@).contains(self.nodes()[x]) {
            let bs = lemma_stuck_elim(self@, self.nodes()[x]);
            self.lemma_settled_not_blocked(queue, bs, queue.len() as int);
            let q = choose|q: int| 0 <= q < queue.len() && queue[q] == x as usize;
            assert(!bs.contains(self.nodes()[queue[q] as int]));
        }
    }

    /// Whether the dependencies contain a cycle.
    pub fn has_cycle(&self) -> (b: bool)
        ensures
            b == has_cycle_spec(self@),
    {
        proof { use_type_invariant(self); }
        let n = self.dependencies.len();
        let queue = self.settle();
        let ghost nodes = self.nodes();
        proof {
            lemma_cycle_iff_stuck(self@);
            self.lemma_view_closed();
            if queue.len() < n {
                // some hole is left out of the fill order
                if forall|x: int| 0 <= x < n ==> Self::in_queue(queue@, x) {
                    let t = queue@.map_values(|v: usize| v as int);
                    vstd::set_lib::lemma_int_range(0, n as int);
                    vstd::seq_lib::seq_to_set_is_finite(t);
                    assert(vstd::set_lib::set_int_range(0, n as int).subset_of(t.to_set())) by {
                        assert forall|x: int| vstd::set_lib::set_int_range(0, n as int).contains(x) implies t.to_set().contains(x) by {
                            assert(Self::in_queue(queue@, x));
                            let q = choose|q: int| 0 <= q < queue@.len() && queue@[q] == x as usize;
                            assert(t[q] == x);
                        }
                    }
                    vstd::set_lib::lemma_len_subset(vstd::set_lib::set_int_range(0, n as int), t.to_set());
                    t.lemma_cardinality_of_set();
                }
                let x = choose|x: int| 0 <= x < n && !Self::in_queue(queue@, x);
                self.lemma_unsettled_stuck(queue@, x);
            } else {
                if stuck(self@) != Set::<Seq<char>>::empty() {
                    if forall|y: Seq<char>| !stuck(self@).contains(y) {
                        assert(stuck(self@) =~= Set::<Seq<char>>::empty());
                    }
                    let y = choose|y: Seq<char>| stuck(self@).contains(y);
                    lemma_stuck_elim(self@, y);
                    assert(nodes.to_set().contains(y));
                    let x = choose|x: int| 0 <= x < n && nodes[x] == y;
                    if Self::in_queue(queue@, x) {
                        self.lemma_settled_not_stuck(queue@, x);
                    }
                    let rest = vstd::set_lib::set_int_range(0, n as int).remove(x);
                    let t = queue@.map_values(|v: usize| v as int);
                    vstd::set_lib::lemma_int_range(0, n as int);
                    assert(t.no_duplicates()) by {
                        assert forall|a: int, b: int| 0 <= a < t.len() && 0 <= b < t.len() && a != b implies t[a] != t[b] by {
                            assert(queue@[a] != queue@[b]);
                        }
                    }
                    t.unique_seq_to_set();
                    assert(t.to_set().subset_of(rest)) by {
                        assert forall|v: int| t.to_set().contains(v) implies rest.contains(v) by {
                            let q = choose|q: int| 0 <= q < t.len() && t[q] == v;
                            assert(queue@[q] < n);
                            if v == x {
                                assert(Self::in_queue(queue@, x));
                            }
                        }
                    }
                    vstd::set_lib::lemma_len_subset(t.to_set(), rest);
                }
            }
        }
        queue.len() < n
    }

    /// Marks the positions that occur in `queue`.
    fn marks_of(n: usize, queue: &Vec<usize>) -> (m: Vec<bool>)
        requires
            forall|p: int| 0 <= p < queue@.len() ==> #[trigger] queue@[p] < n,
        ensures
            m@.len() == n,
            forall|x: int| 0 <= x < n ==> #[trigger] m@[x] == Self::in_queue(queue@, x),
    {
        let mut m: Vec<bool> = Vec::new();
        let mut x: usize = 0;
        while x < n
            invariant
                x <= n,
                m@.len() == x,
                forall|y: int| 0 <= y < x ==> !#[trigger] m@[y],
            decreases n - x,
        {
            m.push(false);
            x = x + 1;
        }
        let mut p: usize = 0;
        while p < queue.len()
            invariant
                p <= queue@.len(),
                m@.len() == n,
                forall|q: int| 0 <= q < queue@.len() ==> #[trigger] queue@[q] < n,
                forall|y: int| 0 <= y < n ==> #[trigger] m@[y] == queue@.take(p as int).contains(y as usize),
            decreases queue.len() - p,
        {
            m.set(queue[p], true);
            assert forall|y: int| 0 <= y < n implies #[trigger] m@[y] == queue@.take(p + 1).contains(y as usize) by {
                if queue@.take(p as int).contains(y as usize) {
                    let q = choose|q: int| 0 <= q < p && #[trigger] queue@.take(p as int)[q] == y as usize;
                    assert(queue@.take(p + 1)[q] == y as usize);
                }
                if queue@.take(p + 1).contains(y as usize) {
                    let q = choose|q: int| 0 <= q < p + 1 && #[trigger] queue@.take(p + 1)[q] == y as usize;
                    if q < p {
                        assert(queue@.take(p as int)[q] == y as usize);
                    }
                }
                if y == queue@[p as int] {
                    assert(queue@.take(p + 1)[p as int] == y as usize);
                }
            }
            p = p + 1;
        }
        assert(queue@.take(queue@.len() as int) =~= queue@);
        m
    }

    /// A suggested fill order: first the holes that can be filled after all
    /// their dependencies, each after those it depends on (holes without
    /// dependencies first, in increasing order, then each filled hole's
    /// dependents in increasing order as they become ready), then the stuck
    /// holes in increasing order.
    pub fn topological_order(&self) -> (r: Vec<String>)
        ensures
            views(r@) == fill_order(self@),
            views(r@).no_duplicates(),
            views(r@).to_set() == self@.dom(),
            exists|k: int| #[trigger] fill_order_split(self@, views(r@), k),
    {
        proof { use_type_invariant(self); }
        let n = self.dependencies.len();
        let ghost nodes = self.nodes();
        let queue = self.settle();
        let inq = Self::marks_of(n, &queue);
        let ghost pre = queue@.map_values(|x: usize| nodes[x as int]);
        let mut order: Vec<String> = Vec::new();
        let mut p: usize = 0;
        while p < queue.len()
            invariant
                n == nodes.len(),
                nodes == self.nodes(),
                p <= queue@.len(),
                forall|q: int| 0 <= q < queue@.len() ==> #[trigger] queue@[q] < n,
                pre == queue@.map_values(|x: usize| nodes[x as int]),
                views(order@) == pre.take(p as int),
            decreases queue.len() - p,
        {
            let name = self.dependencies.key_at(queue[p]).clone();
            let ghost before = order@;
            order.push(name);
            assert(views(order@) =~= views(before).push(name@));
            assert(pre.take(p + 1) =~= pre.take(p as int).push(pre[p as int]));
            p = p + 1;
        }
        assert(pre.take(queue@.len() as int) =~= pre);
        let mut keep: Vec<bool> = Vec::new();
        let mut x: usize = 0;
        while x < n
            invariant
                x <= n,
                inq@.len() == n,
                keep@.len() == x,
                forall|y: int| 0 <= y < x ==> #[trigger] keep@[y] == !inq@[y],
            decreases n - x,
        {
            keep.push(!inq[x]);
            x = x + 1;
        }
        let rest = self.select(&keep);
        let ghost rest_v = views(rest@);
        let mut t: usize = 0;
        while t < rest.len()
            invariant
                t <= rest@.len(),
                rest_v == views(rest@),
                views(order@) == pre + rest_v.take(t as int),
            decreases rest.len() - t,
        {
            let c = rest[t].clone();
            let ghost before = order@;
            order.push(c);
            assert(views(order@) =~= views(before).push(c@));
            assert(rest_v.take(t + 1) =~= rest_v.take(t as int).push(rest_v[t as int]));
            t = t + 1;
        }
        assert(rest_v.take(rest_v.len() as int) =~= rest_v);
        let ghost ov = views(order@);
        let ghost k = pre.len() as int;
        proof {
            self.lemma_view_closed();
            lemma_sorted_no_duplicates(nodes);
            lemma_sorted_no_duplicates(rest_v);
            assert(ov.skip(k) =~= rest_v);
            assert(ov.take(k) =~= pre);
            // which positions are stuck
            assert forall|y: int| 0 <= y < n implies (stuck(self@).contains(#[trigger] nodes[y]) <==> keep@[y]) by {
                if inq@[y] {
                    self.lemma_settled_not_stuck(queue@, y);
                } else {
                    self.lemma_unsettled_stuck(queue@, y);
                }
            }
            assert(rest_v.to_set() =~= stuck(self@)) by {
                assert forall|v: Seq<char>| rest_v.to_set().contains(v) implies stuck(self@).contains(v) by {
                    assert(Self::picked(nodes, keep@, n as int).contains(v));
                    let y = choose|y: int| 0 <= y < n && #[trigger] keep@[y] && nodes[y] == v;
                }
                assert forall|v: Seq<char>| stuck(self@).contains(v) implies rest_v.to_set().contains(v) by {
                    lemma_stuck_elim(self@, v);
                    assert(nodes.to_set().contains(v));
                    let y = choose|y: int| 0 <= y < n && nodes[y] == v;
                    assert(keep@[y]);
                    assert(Self::picked(nodes, keep@, n as int).contains(v));
                }
            }
            // dependencies come first in the settled prefix
            assert forall|i: int, d: Seq<char>| 0 <= i < k && #[trigger] self@[ov[i]].contains(d) implies ov.take(i).contains(d) by {
                assert(ov[i] == nodes[queue@[i] as int]);
                self.lemma_dep_positions(queue@[i] as int, d);
                let kk = choose|kk: int| 0 <= kk < nodes.len() && nodes[kk] == d && #[trigger] self.dep_at(queue@[i] as int, kk);
                assert(queue@.take(i).contains(kk as usize));
                let q = choose|q: int| 0 <= q < i && #[trigger] queue@.take(i)[q] == kk as usize;
                assert(ov.take(i)[q] == d);
            }
            assert(fill_order_split(self@, ov, k));
            // the exact order
            let roots = self.roots_upto(n as nat);
            self.lemma_roots_upto(n as nat);
            assert(roots.no_duplicates()) by {
                assert forall|a: int, b: int| 0 <= a < roots.len() && 0 <= b < roots.len() && a != b implies roots[a] != roots[b] by {
                    if a < b {
                        assert(roots[a] < roots[b]);
                    } else {
                        assert(roots[b] < roots[a]);
                    }
                }
            }
            self.lemma_roots_names();
            self.lemma_settle_names(roots, 0);
            assert(pre =~= self.names_of(queue@));
            assert(sorted(sorted_listing(stuck(self@))) && sorted_listing(stuck(self@)).to_set() == stuck(self@));
            lemma_sorted_unique(rest_v, sorted_listing(stuck(self@)));
            assert(ov =~= fill_order(self@));
            // each hole once
            assert(ov.no_duplicates()) by {
                assert forall|a: int, b: int| 0 <= a < ov.len() && 0 <= b < ov.len() && a != b implies ov[a] != ov[b] by {
                    if a < k && b < k {
                        assert(queue@[a] != queue@[b]);
                    } else if a >= k && b >= k {
                        assert(ov[a] == rest_v[a - k] && ov[b] == rest_v[b - k]);
                    } else {
                        let (i, j) = if a < k { (a, b) } else { (b, a) };
                        assert(ov[j] == rest_v[j - k]);
                        assert(rest_v.to_set().contains(ov[j]));
                        let y = choose|y: int| 0 <= y < n && #[trigger] keep@[y] && nodes[y] == ov[j];
                        assert(ov[i] == nodes[queue@[i] as int]);
                        assert(inq@[queue@[i] as int]);
                    }
                }
            }
            assert(ov.to_set() =~= self@.dom()) by {
                assert forall|v: Seq<char>| ov.to_set().contains(v) implies self@.dom().contains(v) by {
                    let a = choose|a: int| 0 <= a < ov.len() && ov[a] == v;
                    if a < k {
                        assert(nodes.to_set().contains(nodes[queue@[a] as int]));
                    } else {
                        assert(rest_v.to_set().contains(ov[a]));
                    }
                }
                assert forall|v: Seq<char>| self@.dom().contains(v) implies ov.to_set().contains(v) by {
                    assert(nodes.to_set().contains(v));
                    let y = choose|y: int| 0 <= y < n && nodes[y] == v;
                    if inq@[y] {
                        let q = choose|q: int| 0 <= q < queue@.len() && queue@[q] == y as usize;
                        assert(ov[q] == v);
                    } else {
                        assert(stuck(self@).contains(v));
                        assert(rest_v.to_set().contains(v));
                        let j = choose|j: int| 0 <= j < rest_v.len() && rest_v[j] == v;
                        assert(ov[k + j] == v);
                    }
                }
            }
        }
        order
    }

    /// The stuck holes, in increasing order.
    fn stuck_holes(&self) -> (r: Vec<String>)
        ensures
            sorted(views(r@)),
            views(r@).to_set() == stuck(self@),
    {
        proof { use_type_invariant(self); }
        let n = self.dependencies.len();
        let ghost nodes = self.nodes();
        let queue = self.settle();
        let inq = Self::marks_of(n, &queue);
        let mut keep: Vec<bool> = Vec::new();
        let mut x: usize = 0;
        while x < n
            invariant
                x <= n,
                inq@.len() == n,
                keep@.len() == x,
                forall|y: int| 0 <= y < x ==> #[trigger] keep@[y] == !inq@[y],
            decreases n - x,
        {
            keep.push(!inq[x]);
            x = x + 1;
        }
        let rest = self.select(&keep);
        proof {
            self.lemma_view_closed();
            assert forall|y: int| 0 <= y < n implies (stuck(self@).contains(#[trigger] nodes[y]) <==> keep@[y]) by {
                if inq@[y] {
                    self.lemma_settled_not_stuck(queue@, y);
                } else {
                    self.lemma_unsettled_stuck(queue@, y);
                }
            }
            assert(views(rest@).to_set() =~= stuck(self@)) by {
                assert forall|v: Seq<char>| views(rest@).to_set().contains(v) implies stuck(self@).contains(v) by {
                    assert(Self::picked(nodes, keep@, n as int).contains(v));
                    let y = choose|y: int| 0 <= y < n && #[trigger] keep@[y] && nodes[y] == v;
                }
                assert forall|v: Seq<char>| stuck(self@).contains(v) implies views(rest@).to_set().contains(v) by {
                    lemma_stuck_elim(self@, v);
                    assert(nodes.to_set().contains(v));
                    let y = choose|y: int| 0 <= y < n && nodes[y] == v;
                    assert(keep@[y]);
                    assert(Self::picked(nodes, keep@, n as int).contains(v));
                }
            }
        }
        rest
    }

    /// Parallel-ready fill layers: the first layer can be filled first (in
    /// parallel), the next after it, and so on. Where the dependencies
    /// contain a cycle, the stuck holes instead, in increasing order.
    #[verifier::rlimit(40)]
    pub fn layered_topological_order(&self) -> (r: Result<Vec<Vec<String>>, Vec<String>>)
        ensures
            r is Err <==> has_cycle_spec(self@),
            r matches Err(c) ==> sorted(views(c@)) && views(c@).to_set() == stuck(self@),
            r matches Ok(ls) ==> is_layering(self@, layer_views(ls@)),
    {
        if self.has_cycle() {
            return Err(self.stuck_holes());
        }
        proof { use_type_invariant(self); }
        let n = self.dependencies.len();
        let ghost nodes = self.nodes();
        let ghost g = self@;
        proof {
            self.lemma_view_closed();
            lemma_sorted_no_duplicates(nodes);
            nodes.unique_seq_to_set();
            assert(g.dom() == nodes.to_set());
        }
        let mut done: Vec<bool> = Vec::new();
        let mut x: usize = 0;
        while x < n
            invariant
                x <= n,
                done@.len() == x,
                forall|y: int| 0 <= y < x ==> !#[trigger] done@[y],
            decreases n - x,
        {
            done.push(false);
            x = x + 1;
        }
        let mut layers: Vec<Vec<String>> = Vec::new();
        let mut count: usize = 0;
        assert(layer_views(layers@) =~= Seq::<Seq<Seq<char>>>::empty());
        while count < n
            invariant
                n == nodes.len(),
                nodes == self.nodes(),
                g == self@,
                sorted(nodes),
                nodes.no_duplicates(),
                g.dom() == nodes.to_set(),
                g.dom().len() == n,
                self.dependencies@.dom() == nodes.to_set(),
                self.wf(),
                closed_graph(g),
                !has_cycle_spec(g),
                done@.len() == n,
                forall|y: int| 0 <= y < n ==> #[trigger] done@[y] == placed(layer_views(layers@), layers@.len() as int).contains(nodes[y]),
                placed(layer_views(layers@), layers@.len() as int).subset_of(g.dom()),
                count == placed(layer_views(layers@), layers@.len() as int).len(),
                count <= n,
                forall|k: int| 0 <= k < layers@.len() ==> sorted(#[trigger] layer_views(layers@)[k]) && layer_views(layers@)[k].len() > 0,
                forall|k: int| 0 <= k < layers@.len() ==> (#[trigger] layer_views(layers@)[k]).to_set() == ready_after(g, placed(layer_views(layers@), k)),
            decreases n - count,
        {
            let ghost lv = layer_views(layers@);
            let ghost pl = placed(lv, lv.len() as int);
            let mut ready: Vec<bool> = Vec::new();
            let mut j: usize = 0;
            while j < n
                invariant
                    n == nodes.len(),
                    nodes == self.nodes(),
                    g == self@,
                    sorted(nodes),
                    g.dom() == nodes.to_set(),
                    self.dependencies@.dom() == nodes.to_set(),
                    self.wf(),
                    done@.len() == n,
                    forall|y: int| 0 <= y < n ==> #[trigger] done@[y] == pl.contains(nodes[y]),
                    j <= n,
                    ready@.len() == j,
                    forall|y: int| 0 <= y < j ==> #[trigger] ready@[y] == ready_after(g, pl).contains(nodes[y]),
                decreases n - j,
            {
                let all = self.all_deps_marked(j, &done);
                let r = !done[j] && all;
                proof {
                    assert(nodes.to_set().contains(nodes[j as int]));
                    if r {
                        assert(g[nodes[j as int]].subset_of(pl)) by {
                            assert forall|d: Seq<char>| g[nodes[j as int]].contains(d) implies pl.contains(d) by {
                                self.lemma_dep_positions(j as int, d);
                                let k = choose|k: int| 0 <= k < nodes.len() && nodes[k] == d && #[trigger] self.dep_at(j as int, k);
                                assert(done@[k]);
                            }
                        }
                    } else if !done@[j as int] {
                        let k = choose|k: int| 0 <= k < n && #[trigger] self.dep_at(j as int, k) && !done@[k];
                        assert(g[nodes[j as int]].contains(nodes[k]));
                        assert(!pl.contains(nodes[k]));
                    }
                }
                ready.push(r);
                j = j + 1;
            }
            let layer = self.select(&ready);
            let ghost ls = views(layer@);
            proof {
                lemma_sorted_no_duplicates(ls);
                ls.unique_seq_to_set();
                assert(ls.to_set() =~= ready_after(g, pl)) by {
                    assert forall|v: Seq<char>| ls.to_set().contains(v) implies ready_after(g, pl).contains(v) by {
                        assert(Self::picked(nodes, ready@, n as int).contains(v));
                        let y = choose|y: int| 0 <= y < n && #[trigger] ready@[y] && nodes[y] == v;
                    }
                    assert forall|v: Seq<char>| ready_after(g, pl).contains(v) implies ls.to_set().contains(v) by {
                        assert(nodes.to_set().contains(v));
                        let y = choose|y: int| 0 <= y < n && nodes[y] == v;
                        assert(ready@[y]);
                        assert(Self::picked(nodes, ready@, n as int).contains(v));
                    }
                }
                // some hole is ready, or the unplaced holes would be blocked
                if ls.len() == 0 {
                    let rest = g.dom().difference(pl);
                    vstd::seq_lib::seq_to_set_is_finite(nodes);
                    vstd::set_lib::lemma_len_subset(pl, g.dom());
                    if rest == Set::<Seq<char>>::empty() {
                        assert(pl =~= g.dom()) by {
                            assert forall|v: Seq<char>| g.dom().contains(v) implies pl.contains(v) by {
                                assert(!rest.contains(v));
                            }
                        }
                    }
                    assert(blocked(g, rest)) by {
                        reveal(blocked);
                        assert forall|v: Seq<char>| #[trigger] rest.contains(v) implies exists|d: Seq<char>| #[trigger] g[v].contains(d) && rest.contains(d) by {
                            assert(!ls.to_set().contains(v));
                            assert(!ready_after(g, pl).contains(v));
                            assert(!g[v].subset_of(pl));
                            let d = choose|d: Seq<char>| g[v].contains(d) && !pl.contains(d);
                            assert(g[v].subset_of(g.dom()));
                            assert(rest.contains(d));
                        }
                    }
                    assert(rest.subset_of(g.dom()));
                    assert(has_cycle_spec(g));
                }
            }
            let mut j: usize = 0;
            while j < n
                invariant
                    n == nodes.len(),
                    done@.len() == n,
                    ready@.len() == n,
                    j <= n,
                    forall|y: int| 0 <= y < n ==> #[trigger] done@[y] == (pl.contains(nodes[y]) || (y < j && ready@[y])),
                decreases n - j,
            {
                if ready[j] {
                    done.set(j, true);
                }
                j = j + 1;
            }
            let ghost new_pl = pl.union(ls.to_set());
            proof {
                vstd::seq_lib::seq_to_set_is_finite(nodes);
                vstd::set_lib::lemma_len_subset(pl, g.dom());
                assert(pl.disjoint(ls.to_set()));
                vstd::set_lib::lemma_set_disjoint_lens(pl, ls.to_set());
                assert(new_pl.subset_of(g.dom()));
                vstd::set_lib::lemma_len_subset(new_pl, g.dom());
            }
            let m = layer.len();
            layers.push(layer);
            count = count + m;
            proof {
                let nlv = layer_views(layers@);
                assert(nlv =~= lv.push(ls));
                assert(placed(nlv, nlv.len() as int) == new_pl) by {
                    lemma_placed_push(lv, ls, lv.len() as int);
                }
                assert forall|k: int| 0 <= k < layers@.len() implies (#[trigger] nlv[k]).to_set() == ready_after(g, placed(nlv, k)) by {
                    lemma_placed_push(lv, ls, k);
                    if k < lv.len() {
                        assert(nlv[k] == lv[k]);
                    }
                }
                assert forall|k: int| 0 <= k < layers@.len() implies sorted(#[trigger] nlv[k]) && nlv[k].len() > 0 by {
                    if k < lv.len() {
                        assert(nlv[k] == lv[k]);
                    }
                }
                assert forall|y: int| 0 <= y < n implies #[trigger] done@[y] == placed(nlv, nlv.len() as int).contains(nodes[y]) by {
                    if ready@[y] {
                        assert(ls.to_set().contains(nodes[y]));
                    }
                    if ls.to_set().contains(nodes[y]) && !pl.contains(nodes[y]) {
                        assert(ready_after(g, pl).contains(nodes[y]));
                    }
                }
            }
        }
        proof {
            let lv = layer_views(layers@);
            vstd::seq_lib::seq_to_set_is_finite(nodes);
            vstd::set_lib::lemma_subset_equality(placed(lv, lv.len() as int), g.dom());
        }
        Ok(layers)
    }

    /// Which positions belong to cluster `c`.
    closed spec fn member_flags(cid: Seq<int>, c: int) -> Seq<bool> {
        cid.map_values(|e: int| e == c)
    }

    /// Holes `u` and `w` (by sorted position) are adjacent.
    fn adjacent_at(&self, u: usize, w: usize) -> (b: bool)
        requires
            u < self.nodes().len(),
            w < self.nodes().len(),
        ensures
            b == (self.dep_at(u as int, w as int) || self.dep_at(w as int, u as int)),
            b == adjacent(self@, self.nodes()[u as int], self.nodes()[w as int]),
    {
        let n = self.dependencies.len();
        let ghost nodes = self.nodes();
        assert(nodes.to_set().contains(nodes[u as int]));
        assert(nodes.to_set().contains(nodes[w as int]));
        let a = self.dependencies.value_at(u).contains(self.dependencies.key_at(w).as_str());
        let b = self.dependencies.value_at(w).contains(self.dependencies.key_at(u).as_str());
        a || b
    }

    /// Connected clusters of holes (dependencies in either direction link
    /// holes), each in increasing order, ordered by their first hole.
    #[verifier::rlimit(60)]
    #[verifier::spinoff_prover]
    pub fn clusters(&self) -> (r: Vec<Vec<String>>)
        ensures
            is_clustering(self@, layer_views(r@)),
    {
        proof { use_type_invariant(self); }
        let n = self.dependencies.len();
        let ghost nodes = self.nodes();
        let ghost g = self@;
        proof {
            self.lemma_view_closed();
            lemma_sorted_no_duplicates(nodes);
        }
        let mut visited: Vec<bool> = Vec::new();
        let mut x: usize = 0;
        while x < n
            invariant
                x <= n,
                visited@.len() == x,
                forall|y: int| 0 <= y < x ==> !#[trigger] visited@[y],
            decreases n - x,
        {
            visited.push(false);
            x = x + 1;
        }
        let ghost mut cid: Seq<int> = Seq::new(n as nat, |i: int| -1int);
        let ghost mut first: Seq<int> = Seq::empty();
        let mut out: Vec<Vec<String>> = Vec::new();
        let mut v: usize = 0;
        while v < n
            invariant
                n == nodes.len(),
                nodes == self.nodes(),
                g == self@,
                sorted(nodes),
                nodes.no_duplicates(),
                g.dom() == nodes.to_set(),
                self.dependencies@.dom() == nodes.to_set(),
                self.wf(),
                closed_graph(g),
                v <= n,
                visited@.len() == n,
                cid.len() == n,
                first.len() == out@.len(),
                forall|y: int| 0 <= y < n ==> #[trigger] visited@[y] == (cid[y] >= 0),
                forall|y: int| 0 <= y < n ==> #[trigger] cid[y] < out@.len(),
                forall|y: int| 0 <= y < v ==> #[trigger] cid[y] >= 0,
                forall|c: int| 0 <= c < first.len() ==> 0 <= #[trigger] first[c] < v && cid[first[c]] == c,
                forall|c: int, d: int| 0 <= c < d < first.len() ==> #[trigger] first[c] < #[trigger] first[d],
                forall|c: int| 0 <= c < out@.len() ==> sorted(#[trigger] layer_views(out@)[c]) && layer_views(out@)[c].len() > 0
                    && layer_views(out@)[c][0] == nodes[first[c]],
                forall|c: int| 0 <= c < out@.len() ==> (#[trigger] layer_views(out@)[c]).to_set() == Self::picked(
                    nodes,
                    Self::member_flags(cid, c),
                    n as int,
                ),
                forall|y: int, w: int| 0 <= y < n && 0 <= w < n && cid[y] >= 0 && #[trigger] self.dep_at(y, w) ==> cid[w] == cid[y],
                forall|y: int, w: int| 0 <= y < n && 0 <= w < n && cid[y] >= 0 && #[trigger] self.dep_at(w, y) ==> cid[w] == cid[y],
                forall|y: int| 0 <= y < n && cid[y] >= 0 ==> linked(g, nodes[first[cid[y]]], #[trigger] nodes[y]),
            decreases n - v,
        {
            if visited[v] {
                v = v + 1;
                continue;
            }
            let c = out.len();
            let ghost c_int = c as int;
            let mut incl: Vec<bool> = Vec::new();
            let mut y: usize = 0;
            while y < n
                invariant
                    y <= n,
                    incl@.len() == y,
                    forall|z: int| 0 <= z < y ==> !#[trigger] incl@[z],
                decreases n - y,
            {
                incl.push(false);
                y = y + 1;
            }
            let mut stack: Vec<usize> = Vec::new();
            stack.push(v);
            assert(stack@[0] == v);
            assert(stack@.contains(v));
            proof { lemma_linked_refl(g, nodes[v as int]); }
            let ghost cid0 = cid;
            let ghost mut unv: Set<int> = Set::new(|z: int| 0 <= z < n && cid[z] < 0);
            proof {
                vstd::set_lib::lemma_int_range(0, n as int);
                vstd::set_lib::lemma_len_subset(unv, vstd::set_lib::set_int_range(0, n as int));
            }
            while stack.len() > 0
                invariant
                    n == nodes.len(),
                    nodes == self.nodes(),
                    g == self@,
                    sorted(nodes),
                    nodes.no_duplicates(),
                    g.dom() == nodes.to_set(),
                    self.dependencies@.dom() == nodes.to_set(),
                    self.wf(),
                    v < n,
                    c == out@.len(),
                    c_int == c as int,
                    visited@.len() == n,
                    incl@.len() == n,
                    cid.len() == n,
                    cid0.len() == n,
                    first.len() == c,
                    unv == Set::new(|z: int| 0 <= z < n && cid[z] < 0),
                    unv.finite(),
                    forall|z: int| 0 <= z < n && cid0[z] >= 0 ==> #[trigger] cid[z] == cid0[z],
                    forall|z: int| 0 <= z < n && cid0[z] < 0 ==> #[trigger] cid[z] < 0 || cid[z] == c_int,
                    forall|z: int| 0 <= z < n ==> #[trigger] cid0[z] < c_int,
                    forall|z: int| 0 <= z < n ==> #[trigger] visited@[z] == (cid[z] >= 0),
                    forall|z: int| 0 <= z < n ==> #[trigger] incl@[z] == (cid[z] == c_int),
                    forall|z: int| 0 <= z < n ==> #[trigger] cid[z] <= c_int,
                    cid[v as int] == c_int || stack@.contains(v),
                    forall|q: int| 0 <= q < stack@.len() ==> #[trigger] stack@[q] < n,
                    forall|q: int| 0 <= q < stack@.len() ==> linked(g, nodes[v as int], nodes[#[trigger] stack@[q] as int]),
                    forall|q: int| 0 <= q < stack@.len() ==> (cid[#[trigger] stack@[q] as int] == c_int || cid[stack@[q] as int] < 0),
                    forall|z: int| 0 <= z < n && cid[z] == c_int ==> linked(g, nodes[v as int], #[trigger] nodes[z]),
                    forall|z: int, w: int| 0 <= z < n && 0 <= w < n && cid[z] == c_int && #[trigger] self.dep_at(z, w)
                        ==> cid[w] == c_int || stack@.contains(w as usize),
                    forall|z: int, w: int| 0 <= z < n && 0 <= w < n && cid[z] == c_int && #[trigger] self.dep_at(w, z)
                        ==> cid[w] == c_int || stack@.contains(w as usize),
                    forall|z: int, w: int| 0 <= z < n && 0 <= w < n && 0 <= cid[z] < c_int && #[trigger] self.dep_at(z, w) ==> cid[w] == cid[z],
                    forall|z: int, w: int| 0 <= z < n && 0 <= w < n && 0 <= cid[z] < c_int && #[trigger] self.dep_at(w, z) ==> cid[w] == cid[z],
                decreases unv.len(), stack@.len(),
            {
                let ghost old_stack = stack@;
                let ghost cid_b = cid;
                let u = stack.pop().unwrap();
                let ghost st = stack@;
                assert(old_stack =~= st.push(u));
                assert(old_stack[old_stack.len() - 1] == u);
                if !visited[u] {
                    visited.set(u, true);
                    incl.set(u, true);
                    proof {
                        assert(unv.contains(u as int));
                        unv = unv.remove(u as int);
                        cid = cid.update(u as int, c_int);
                        assert(unv =~= Set::new(|z: int| 0 <= z < n && cid[z] < 0));
                    }
                    let mut w: usize = 0;
                    while w < n
                        invariant
                            n == nodes.len(),
                            nodes == self.nodes(),
                            g == self@,
                            g.dom() == nodes.to_set(),
                            u < n,
                            v < n,
                            w <= n,
                            visited@.len() == n,
                            cid.len() == n,
                            cid[u as int] == c_int,
                            forall|z: int| 0 <= z < n ==> #[trigger] visited@[z] == (cid[z] >= 0),
                            linked(g, nodes[v as int], nodes[u as int]),
                            st.len() <= stack@.len(),
                            forall|q: int| 0 <= q < st.len() ==> stack@[q] == #[trigger] st[q],
                            forall|q: int| 0 <= q < stack@.len() ==> #[trigger] stack@[q] < n,
                            forall|q: int| st.len() <= q < stack@.len() ==> linked(g, nodes[v as int], nodes[#[trigger] stack@[q] as int])
                                && cid[stack@[q] as int] < 0,
                            forall|z: int| 0 <= z < w && #[trigger] self.dep_at(u as int, z) ==> cid[z] >= 0 || stack@.contains(z as usize),
                            forall|z: int| 0 <= z < w && #[trigger] self.dep_at(z, u as int) ==> cid[z] >= 0 || stack@.contains(z as usize),
                        decreases n - w,
                    {
                        let ghost s0 = stack@;
                        if !visited[w] && self.adjacent_at(u, w) {
                            proof { lemma_linked_step(g, nodes[v as int], nodes[u as int], nodes[w as int]); }
                            stack.push(w);
                            assert(stack@[stack@.len() - 1] == w);
                            assert forall|z: int| 0 <= z < w + 1 && #[trigger] self.dep_at(u as int, z) implies cid[z] >= 0
                                || stack@.contains(z as usize) by {
                                if z < w && !(cid[z] >= 0) {
                                    assert(s0.contains(z as usize));
                                    let q = choose|q: int| 0 <= q < s0.len() && s0[q] == z as usize;
                                    assert(stack@[q] == z as usize);
                                }
                            }
                            assert forall|z: int| 0 <= z < w + 1 && #[trigger] self.dep_at(z, u as int) implies cid[z] >= 0
                                || stack@.contains(z as usize) by {
                                if z < w && !(cid[z] >= 0) {
                                    assert(s0.contains(z as usize));
                                    let q = choose|q: int| 0 <= q < s0.len() && s0[q] == z as usize;
                                    assert(stack@[q] == z as usize);
                                }
                            }
                        }
                        w = w + 1;
                    }
                    proof {
                        assert forall|z: int| 0 <= z < n && cid0[z] >= 0 implies #[trigger] cid[z] == cid0[z] by {
                            assert(cid_b[z] == cid0[z]);
                        }
                        assert forall|q: int| 0 <= q < stack@.len() implies (cid[#[trigger] stack@[q] as int] == c_int || cid[stack@[q] as int] < 0) by {
                            if q < st.len() {
                                assert(stack@[q] == st[q]);
                                assert(old_stack[q] == st[q]);
                            }
                        }
                        assert forall|q: int| 0 <= q < stack@.len() implies linked(g, nodes[v as int], nodes[#[trigger] stack@[q] as int]) by {
                            if q < st.len() {
                                assert(stack@[q] == st[q]);
                                assert(old_stack[q] == st[q]);
                            }
                        }
                        assert forall|z: int, w2: int| 0 <= z < n && 0 <= w2 < n && cid[z] == c_int && #[trigger] self.dep_at(z, w2)
                            implies cid[w2] == c_int || stack@.contains(w2 as usize) by {
                            if z == u {
                                if cid[w2] >= 0 && cid[w2] != c_int {
                                    assert(cid_b[w2] == cid[w2]);
                                    assert(0 <= cid_b[w2] < c_int);
                                    assert(self.dep_at(u as int, w2));
                                    assert(cid_b[u as int] == cid_b[w2]);
                                }
                            } else {
                                assert(cid_b[z] == c_int);
                                if !(cid[w2] == c_int) {
                                    assert(cid_b[w2] != c_int);
                                    assert(old_stack.contains(w2 as usize));
                                    let q = choose|q: int| 0 <= q < old_stack.len() && old_stack[q] == w2 as usize;
                                    if q < st.len() {
                                        assert(stack@[q] == w2 as usize);
                                    }
                                }
                            }
                        }
                        assert forall|z: int, w2: int| 0 <= z < n && 0 <= w2 < n && cid[z] == c_int && #[trigger] self.dep_at(w2, z)
                            implies cid[w2] == c_int || stack@.contains(w2 as usize) by {
                            if z == u {
                                if cid[w2] >= 0 && cid[w2] != c_int {
                                    assert(cid_b[w2] == cid[w2]);
                                    assert(0 <= cid_b[w2] < c_int);
                                    assert(self.dep_at(w2, u as int));
                                    assert(cid_b[u as int] == cid_b[w2]);
                                }
                            } else {
                                assert(cid_b[z] == c_int);
                                if !(cid[w2] == c_int) {
                                    assert(cid_b[w2] != c_int);
                                    assert(old_stack.contains(w2 as usize));
                                    let q = choose|q: int| 0 <= q < old_stack.len() && old_stack[q] == w2 as usize;
                                    if q < st.len() {
                                        assert(stack@[q] == w2 as usize);
                                    }
                                }
                            }
                        }
                        assert forall|z: int, w2: int| 0 <= z < n && 0 <= w2 < n && 0 <= cid[z] < c_int && #[trigger] self.dep_at(z, w2) implies cid[w2] == cid[z] by {
                            assert(cid_b[z] == cid[z]);
                            assert(cid_b[w2] == cid_b[z]);
                        }
                        assert forall|z: int, w2: int| 0 <= z < n && 0 <= w2 < n && 0 <= cid[z] < c_int && #[trigger] self.dep_at(w2, z) implies cid[w2] == cid[z] by {
                            assert(cid_b[z] == cid[z]);
                            assert(cid_b[w2] == cid_b[z]);
                        }
                        if cid[v as int] != c_int {
                            assert(old_stack.contains(v));
                            let q = choose|q: int| 0 <= q < old_stack.len() && old_stack[q] == v;
                            assert(q < st.len());
                            assert(stack@[q] == v);
                        }
                    }
                } else {
                    proof {
                        assert(cid[u as int] == c_int);
                        assert forall|z: int, w2: int| 0 <= z < n && 0 <= w2 < n && cid[z] == c_int && #[trigger] self.dep_at(z, w2)
                            implies cid[w2] == c_int || stack@.contains(w2 as usize) by {
                            if !(cid[w2] == c_int) {
                                assert(old_stack.contains(w2 as usize));
                                let q = choose|q: int| 0 <= q < old_stack.len() && old_stack[q] == w2 as usize;
                                assert(q < st.len());
                                assert(stack@[q] == w2 as usize);
                            }
                        }
                        assert forall|z: int, w2: int| 0 <= z < n && 0 <= w2 < n && cid[z] == c_int && #[trigger] self.dep_at(w2, z)
                            implies cid[w2] == c_int || stack@.contains(w2 as usize) by {
                            if !(cid[w2] == c_int) {
                                assert(old_stack.contains(w2 as usize));
                                let q = choose|q: int| 0 <= q < old_stack.len() && old_stack[q] == w2 as usize;
                                assert(q < st.len());
                                assert(stack@[q] == w2 as usize);
                            }
                        }
                        if cid[v as int] != c_int {
                            assert(old_stack.contains(v));
                            let q = choose|q: int| 0 <= q < old_stack.len() && old_stack[q] == v;
                            assert(q < st.len());
                            assert(stack@[q] == v);
                        }
                        assert forall|q: int| 0 <= q < stack@.len() implies (cid[#[trigger] stack@[q] as int] == c_int || cid[stack@[q] as int] < 0) by {
                            assert(old_stack[q] == stack@[q]);
                        }
                        assert forall|q: int| 0 <= q < stack@.len() implies linked(g, nodes[v as int], nodes[#[trigger] stack@[q] as int]) by {
                            assert(old_stack[q] == stack@[q]);
                        }
                    }
                }
            }
            proof {
                assert forall|c2: int| 0 <= c2 < c_int implies Self::member_flags(cid, c2) =~= Self::member_flags(cid0, c2) by {
                    assert forall|z: int| 0 <= z < n implies Self::member_flags(cid, c2)[z] == Self::member_flags(cid0, c2)[z] by {
                        if cid0[z] < 0 {
                            assert(cid[z] < 0 || cid[z] == c_int);
                        }
                    }
                }
            }

            let cluster = self.select(&incl);
            let ghost cl = views(cluster@);
            proof {
                assert(cid[v as int] == c_int);
                assert(incl@ =~= Self::member_flags(cid, c_int));
                // the first member is hole `v`: every member comes at or after it
                assert(cl.to_set().contains(nodes[v as int])) by {
                    assert(Self::picked(nodes, incl@, n as int).contains(nodes[v as int])) by {
                        assert(incl@[v as int]);
                    }
                }
                assert(cl.len() > 0) by {
                    if cl.len() == 0 {
                        assert(cl.to_set() =~= Set::<Seq<char>>::empty());
                    }
                }
                assert(cl[0] == nodes[v as int]) by {
                    assert(cl.to_set().contains(cl[0]));
                    assert(Self::picked(nodes, incl@, n as int).contains(cl[0]));
                    let z = choose|z: int| 0 <= z < n && #[trigger] incl@[z] && nodes[z] == cl[0];
                    let j = choose|j: int| 0 <= j < cl.len() && cl[j] == nodes[v as int];
                    if z != v {
                        assert(z > v);
                        assert(str_lt(nodes[v as int], nodes[z]));
                        if j > 0 {
                            assert(str_lt(cl[0], cl[j]));
                            crate::text::lemma_str_lt_asymmetric(cl[0], cl[j]);
                        }
                    }
                }
            }
            let ghost old_out = out@;
            out.push(cluster);
            proof {
                first = first.push(v as int);
                let lv = layer_views(out@);
                assert(lv =~= layer_views(old_out).push(cl));
                assert forall|c2: int| 0 <= c2 < out@.len() implies (#[trigger] layer_views(out@)[c2]).to_set() == Self::picked(
                    nodes,
                    Self::member_flags(cid, c2),
                    n as int,
                ) by {
                    if c2 < c_int {
                        assert(layer_views(out@)[c2] == layer_views(old_out)[c2]);
                    }
                }
                assert forall|c2: int| 0 <= c2 < out@.len() implies sorted(#[trigger] layer_views(out@)[c2]) && layer_views(out@)[c2].len() > 0
                    && layer_views(out@)[c2][0] == nodes[first[c2]] by {
                    if c2 < c_int {
                        assert(layer_views(out@)[c2] == layer_views(old_out)[c2]);
                    }
                }
                assert forall|y2: int, w2: int| 0 <= y2 < n && 0 <= w2 < n && cid[y2] >= 0 && #[trigger] self.dep_at(y2, w2) implies cid[w2] == cid[y2] by {
                    if cid[y2] == c_int && cid[w2] != c_int {
                        assert(stack@.contains(w2 as usize));
                    }
                }
                assert forall|y2: int, w2: int| 0 <= y2 < n && 0 <= w2 < n && cid[y2] >= 0 && #[trigger] self.dep_at(w2, y2) implies cid[w2] == cid[y2] by {
                    if cid[y2] == c_int && cid[w2] != c_int {
                        assert(stack@.contains(w2 as usize));
                    }
                }
            }
            v = v + 1;
        }
        proof {
            let cs = layer_views(out@);
            assert forall|i: int, xx: Seq<char>| 0 <= i < cs.len() && #[trigger] cs[i].contains(xx) implies g.dom().contains(xx) by {
                assert(cs[i].to_set().contains(xx));
                assert(Self::picked(nodes, Self::member_flags(cid, i), n as int).contains(xx));
                let z = choose|z: int| 0 <= z < n && #[trigger] Self::member_flags(cid, i)[z] && nodes[z] == xx;
                assert(nodes.to_set().contains(xx));
            }
            assert forall|xx: Seq<char>| #[trigger] g.dom().contains(xx) implies exists|i: int| 0 <= i < cs.len() && #[trigger] cs[i].contains(xx) by {
                assert(nodes.to_set().contains(xx));
                let z = choose|z: int| 0 <= z < n && nodes[z] == xx;
                let i = cid[z];
                assert(Self::member_flags(cid, i)[z]);
                assert(Self::picked(nodes, Self::member_flags(cid, i), n as int).contains(xx));
                assert(cs[i].to_set().contains(xx));
            }
            assert forall|i: int, j: int, xx: Seq<char>|
                0 <= i < cs.len() && 0 <= j < cs.len() && #[trigger] cs[i].contains(xx) && #[trigger] cs[j].contains(xx) implies i == j by {
                assert(cs[i].to_set().contains(xx));
                assert(cs[j].to_set().contains(xx));
                assert(Self::picked(nodes, Self::member_flags(cid, i), n as int).contains(xx));
                assert(Self::picked(nodes, Self::member_flags(cid, j), n as int).contains(xx));
                let z1 = choose|z: int| 0 <= z < n && #[trigger] Self::member_flags(cid, i)[z] && nodes[z] == xx;
                let z2 = choose|z: int| 0 <= z < n && #[trigger] Self::member_flags(cid, j)[z] && nodes[z] == xx;
            }
            assert forall|i: int, xx: Seq<char>, yy: Seq<char>|
                0 <= i < cs.len() && #[trigger] cs[i].contains(xx) && #[trigger] adjacent(g, xx, yy) implies cs[i].contains(yy) by {
                assert(cs[i].to_set().contains(xx));
                assert(Self::picked(nodes, Self::member_flags(cid, i), n as int).contains(xx));
                let z = choose|z: int| 0 <= z < n && #[trigger] Self::member_flags(cid, i)[z] && nodes[z] == xx;
                assert(g.dom().contains(yy)) by {
                    if g.contains_key(xx) && g[xx].contains(yy) {
                        assert(g[xx].subset_of(g.dom()));
                    }
                }
                assert(nodes.to_set().contains(yy));
                let w = choose|w: int| 0 <= w < n && nodes[w] == yy;
                if g[xx].contains(yy) && g.contains_key(xx) {
                    assert(self.dep_at(z, w));
                } else {
                    assert(self.dep_at(w, z));
                }
                assert(Self::member_flags(cid, i)[w]);
                assert(Self::picked(nodes, Self::member_flags(cid, i), n as int).contains(yy));
                assert(cs[i].to_set().contains(yy));
            }
            assert forall|i: int, xx: Seq<char>| 0 <= i < cs.len() && #[trigger] cs[i].contains(xx) implies linked(g, cs[i][0], xx) by {
                assert(cs[i].to_set().contains(xx));
                assert(Self::picked(nodes, Self::member_flags(cid, i), n as int).contains(xx));
                let z = choose|z: int| 0 <= z < n && #[trigger] Self::member_flags(cid, i)[z] && nodes[z] == xx;
                assert(linked(g, nodes[first[cid[z]]], nodes[z]));
            }
            assert forall|i: int, j: int| 0 <= i < j < cs.len() implies str_lt(#[trigger] cs[i][0], #[trigger] cs[j][0]) by {
                assert(first[i] < first[j]);
            }
        }
        out
    }

    /// Edge `a` sorts before edge `b` (by position in the edge list).
    fn edge_before_at(&self, a: usize, b: usize) -> (r: bool)
        requires
            a < self.edges@.len(),
            b < self.edges@.len(),
        ensures
            r == edge_before(self.edge_list()[a as int], self.edge_list()[b as int]),
    {
        let ea = &self.edges[a];
        let eb = &self.edges[b];
        let c = compare_str(ea.from.as_str(), eb.from.as_str());
        c < 0 || (c == 0 && compare_str(ea.to.as_str(), eb.to.as_str()) < 0)
    }

    /// The positions of the edges in stably sorted (source, target) order.
    fn sorted_edge_positions(&self) -> (r: Vec<usize>)
        ensures
            forall|i: int| 0 <= i < r@.len() ==> #[trigger] r@[i] < self.edges@.len(),
            r@.map_values(|i: usize| self.edge_list()[i as int]) == sort_edges(self.edge_list()),
    {
        let ghost el = self.edge_list();
        let mut sorted: Vec<usize> = Vec::new();
        let mut k: usize = 0;
        assert(el.take(0) =~= Seq::<(Seq<char>, Seq<char>, EdgeKind)>::empty());
        assert(sorted@.map_values(|i: usize| el[i as int]) =~= Seq::<(Seq<char>, Seq<char>, EdgeKind)>::empty());
        while k < self.edges.len()
            invariant
                el == self.edge_list(),
                el.len() == self.edges@.len(),
                k <= self.edges@.len(),
                forall|i: int| 0 <= i < sorted@.len() ==> #[trigger] sorted@[i] < k,
                sorted@.map_values(|i: usize| el[i as int]) == sort_edges(el.take(k as int)),
            decreases self.edges.len() - k,
        {
            let ghost t = sorted@.map_values(|i: usize| el[i as int]);
            let ghost e = el[k as int];
            let mut p: usize = sorted.len();
            assert(t.take(p as int) =~= t);
            while p > 0 && self.edge_before_at(k, sorted[p - 1])
                invariant
                    el == self.edge_list(),
                    el.len() == self.edges@.len(),
                    k < self.edges@.len(),
                    e == el[k as int],
                    p <= sorted@.len(),
                    forall|i: int| 0 <= i < sorted@.len() ==> #[trigger] sorted@[i] < k,
                    t == sorted@.map_values(|i: usize| el[i as int]),
                    insert_pos(t, e) == insert_pos(t.take(p as int), e),
                decreases p,
            {
                assert(t.take(p as int).drop_last() =~= t.take(p - 1));
                assert(t.take(p as int).last() == t[p - 1]);
                p = p - 1;
            }
            proof {
                if p > 0 {
                    assert(t.take(p as int).last() == t[p - 1]);
                    assert(!edge_before(e, t.take(p as int).last()));
                }
                assert(insert_pos(t, e) == p);
                assert(el.take(k + 1).drop_last() =~= el.take(k as int));
                assert(el.take(k + 1).last() == e);
            }
            let ghost s0 = sorted@;
            sorted.insert(p, k);
            assert(sorted@.map_values(|i: usize| el[i as int]) =~= t.insert(p as int, e));
            assert forall|i: int| 0 <= i < sorted@.len() implies #[trigger] sorted@[i] < k + 1 by {
                if i < p {
                    assert(sorted@[i] == s0[i]);
                } else if i > p {
                    assert(sorted@[i] == s0[i - 1]);
                }
            }
            k = k + 1;
        }
        assert(el.take(self.edges@.len() as int) =~= el);
        sorted
    }

    /// Serialize to a JSON string: the dependencies of each hole, the edges
    /// sorted by source and target, the roots and a suggested fill order.
    #[verifier::rlimit(40)]
    pub fn to_json_string(&self) -> (s: String)
        ensures
            exists|keys: Seq<Seq<char>>, deps: Seq<Seq<Seq<char>>>, roots: Seq<Seq<char>>, order: Seq<Seq<char>>|
                #![trigger graph_json(keys, deps, sort_edges(self.edge_list()), roots, order)]
                {
                &&& sorted(keys)
                &&& keys.to_set() == self@.dom()
                &&& deps.len() == keys.len()
                &&& forall|i: int| 0 <= i < keys.len() ==> sorted(#[trigger] deps[i]) && deps[i].to_set() == self@[keys[i]]
                &&& sorted(roots)
                &&& roots.to_set() == root_set(self@)
                &&& order == fill_order(self@)
                &&& s@ == graph_json(keys, deps, sort_edges(self.edge_list()), roots, order)
            },
    {
        proof { use_type_invariant(self); }
        let n = self.dependencies.len();
        let ghost nodes = self.nodes();
        let mut out = string_of("{\n");
        out.append("    \"dependencies\": {");
        let ghost start = out@;
        let ghost mut deps: Seq<Seq<Seq<char>>> = Seq::empty();
        let mut i: usize = 0;
        while i < n
            invariant
                n == nodes.len(),
                nodes == self.nodes(),
                self.dependencies@.dom() == nodes.to_set(),
                i <= n,
                deps.len() == i,
                forall|j: int| 0 <= j < i ==> sorted(#[trigger] deps[j]) && deps[j].to_set() == self@[nodes[j]],
                out@ == start + join_with(Seq::new(i as nat, |j: int| dep_entry_json(nodes[j], deps[j])), ", "@),
            decreases n - i,
        {
            if i > 0 {
                out.append(", ");
            }
            let key = json_escape(self.dependencies.key_at(i).as_str());
            out.append(key.as_str());
            out.append(": [");
            let set = self.dependencies.value_at(i);
            let names = set.iter();
            push_json_list(&mut out, names);
            out.append("]");
            proof {
                assert(nodes.to_set().contains(nodes[i as int]));
                let d2 = deps.push(views(names@));
                let e_old = Seq::new(i as nat, |j: int| dep_entry_json(nodes[j], deps[j]));
                let e_new = Seq::new((i + 1) as nat, |j: int| dep_entry_json(nodes[j], d2[j]));
                assert(e_new.drop_last() =~= e_old);
                assert(e_new.last() == dep_entry_json(nodes[i as int], views(names@)));
                if i == 0 {
                    assert(e_old =~= Seq::<Seq<char>>::empty());
                }
                assert(out@ =~= start + join_with(e_new, ", "@));
                assert forall|j: int| 0 <= j < i + 1 implies sorted(#[trigger] d2[j]) && d2[j].to_set() == self@[nodes[j]] by {
                    if j < i {
                        assert(d2[j] == deps[j]);
                    }
                }
                deps = d2;
            }
            i = i + 1;
        }
        out.append("},\n");
        out.append("    \"edges\": [");
        let ghost mid = out@;
        let positions = self.sorted_edge_positions();
        let ghost es = sort_edges(self.edge_list());
        let ghost ejs = es.map_values(|e: (Seq<char>, Seq<char>, EdgeKind)| edge_json(e));
        let mut t: usize = 0;
        while t < positions.len()
            invariant
                t <= positions@.len(),
                forall|q: int| 0 <= q < positions@.len() ==> #[trigger] positions@[q] < self.edges@.len(),
                positions@.map_values(|q: usize| self.edge_list()[q as int]) == es,
                ejs == es.map_values(|e: (Seq<char>, Seq<char>, EdgeKind)| edge_json(e)),
                out@ == mid + join_with(ejs.take(t as int), ", "@),
            decreases positions.len() - t,
        {
            if t > 0 {
                out.append(", ");
            }
            let edge = &self.edges[positions[t]];
            out.append("{\"from\": ");
            let f = json_escape(edge.from.as_str());
            out.append(f.as_str());
            out.append(", \"to\": ");
            let to = json_escape(edge.to.as_str());
            out.append(to.as_str());
            out.append(", \"kind\": ");
            let kind = match edge.kind {
                EdgeKind::Type => json_escape("type"),
                EdgeKind::Value => json_escape("value"),
                EdgeKind::Cost => json_escape("cost"),
            };
            out.append(kind.as_str());
            out.append("}");
            proof {
                assert(es[t as int] == self.edge_list()[positions@[t as int] as int]);
                assert(self.edge_list()[positions@[t as int] as int] == edge_view(*edge));
                let tk = ejs.take(t + 1);
                assert(tk.drop_last() =~= ejs.take(t as int));
                assert(tk.last() == edge_json(es[t as int]));
                if t == 0 {
                    assert(ejs.take(0) =~= Seq::<Seq<char>>::empty());
                }
            }
            assert(out@ =~= mid + join_with(ejs.take(t + 1), ", "@));
            t = t + 1;
        }
        assert(ejs.take(positions@.len() as int) =~= ejs);
        out.append("],\n");
        out.append("    \"roots\": [");
        let roots = self.roots();
        push_json_list(&mut out, roots.as_slice());
        out.append("],\n");
        out.append("    \"suggested_order\": [");
        let order = self.topological_order();
        push_json_list(&mut out, order.as_slice());
        out.append("]\n");
        out.append("  }");
        proof {
            self.lemma_view_closed();
            assert(Seq::new(n as nat, |j: int| dep_entry_json(nodes[j], deps[j])) =~= Seq::new(nodes.len(), |j: int| dep_entry_json(nodes[j], deps[j])));
            assert(out@ =~= graph_json(nodes, deps, es, views(roots@), views(order@)));
        }
        out
    }

    /// Number of holes in the graph.
    pub fn len(&self) -> (n: usize)
        ensures
            n == self@.len(),
    {
        assert(self@.dom() =~= self.dependencies@.dom());
        self.dependencies.len()
    }

    /// Whether the graph has no holes.
    pub fn is_empty(&self) -> (b: bool)
        ensures
            b == (self@ == Map::<Seq<char>, Set<Seq<char>>>::empty()),
    {
        let n = self.dependencies.len();
        assert(self@.dom() =~= self.dependencies@.dom());
        if n == 0 {
            assert(self.dependencies.key_seq() =~= Seq::<Seq<char>>::empty());
            assert(self@.dom() =~= Set::<Seq<char>>::empty());
            assert(self@ =~= Map::<Seq<char>, Set<Seq<char>>>::empty());
        } else {
            assert(self@.dom().contains(self.dependencies.key_seq()[0]));
        }
        n == 0
    }
}

} // verus!
