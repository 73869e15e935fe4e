//! Properties of matching, stated over the specifications that the matcher's
//! functions meet, and proved.
use vstd::prelude::*;

use crate::data::{degree, flow_matches, has_type_var, token_matches, Token};
use crate::query::Predicate;

verus! {

/// Whether `pos` places each predicate of `q` on a token of `flow` that
/// satisfies it, at strictly increasing positions.
pub open spec fn is_placement(
    flows: Seq<Seq<Token>>,
    flow: Seq<Token>,
    q: Seq<Predicate>,
    pos: Seq<int>,
) -> bool {
    &&& pos.len() == q.len()
    &&& forall|k: int|
        0 <= k < pos.len() ==> 0 <= #[trigger] pos[k] < flow.len() && token_matches(
            flows,
            flow[pos[k]],
            q[k],
        )
    &&& forall|k: int, l: int| 0 <= k < l < pos.len() ==> pos[k] < pos[l]
}

/// A query matches a flow if and only if its predicates can be placed, in
/// order, on tokens of the flow at strictly increasing positions.
pub proof fn lemma_matches_iff_placement(flows: Seq<Seq<Token>>, flow: Seq<Token>, q: Seq<Predicate>)
    ensures
        flow_matches(flows, flow, q) <==> exists|pos: Seq<int>| is_placement(flows, flow, q, pos),
    decreases q.len(),
{
    if q.len() == 0 {
        assert(is_placement(flows, flow, q, Seq::empty()));
    } else {
        let rest = q.drop_first();
        if flow_matches(flows, flow, q) {
            let j = choose|j: int|
                0 <= j < flow.len() && #[trigger] token_matches(flows, flow[j], q[0])
                    && flow_matches(flows, flow.skip(j + 1), rest);
            let g = flow.skip(j + 1);
            lemma_matches_iff_placement(flows, g, rest);
            let inner = choose|p: Seq<int>| is_placement(flows, g, rest, p);
            let pos = seq![j] + inner.map_values(|x: int| x + j + 1);
            assert forall|k: int| 0 <= k < pos.len() implies 0 <= #[trigger] pos[k] < flow.len()
                && token_matches(flows, flow[pos[k]], q[k]) by {
                if k > 0 {
                    assert(pos[k] == inner[k - 1] + j + 1);
                    assert(g[inner[k - 1]] == flow[pos[k]]);
                    assert(q[k] == rest[k - 1]);
                }
            }
            assert forall|k: int, l: int| 0 <= k < l < pos.len() implies pos[k] < pos[l] by {
                if k > 0 {
                    assert(pos[k] == inner[k - 1] + j + 1);
                }
                assert(pos[l] == inner[l - 1] + j + 1);
            }
            assert(is_placement(flows, flow, q, pos));
        }
        if exists|pos: Seq<int>| is_placement(flows, flow, q, pos) {
            let pos = choose|pos: Seq<int>| is_placement(flows, flow, q, pos);
            let j = pos[0];
            let g = flow.skip(j + 1);
            let inner = pos.drop_first().map_values(|x: int| x - j - 1);
            assert forall|k: int| 0 <= k < inner.len() implies 0 <= #[trigger] inner[k] < g.len()
                && token_matches(flows, g[inner[k]], rest[k]) by {
                assert(inner[k] == pos[k + 1] - j - 1);
                assert(pos[0] < pos[k + 1]);
                assert(g[inner[k]] == flow[pos[k + 1]]);
            }
            assert forall|k: int, l: int| 0 <= k < l < inner.len() implies inner[k] < inner[l] by {
                assert(inner[k] == pos[k + 1] - j - 1);
                assert(inner[l] == pos[l + 1] - j - 1);
            }
            assert(is_placement(flows, g, rest, inner));
            lemma_matches_iff_placement(flows, g, rest);
            assert(token_matches(flows, flow[j], q[0]));
        }
    }
}

/// A query of one predicate matches exactly the flows that hold a token
/// satisfying it.
pub proof fn lemma_single_predicate(flows: Seq<Seq<Token>>, flow: Seq<Token>, p: Predicate)
    ensures
        flow_matches(flows, flow, seq![p]) <==> exists|j: int|
            0 <= j < flow.len() && #[trigger] token_matches(flows, flow[j], p),
{
    let q = seq![p];
    assert(q[0] == p);
    assert(q.drop_first() =~= Seq::<Predicate>::empty());
    assert forall|g: Seq<Token>| #[trigger] flow_matches(flows, g, Seq::<Predicate>::empty()) by {}
    if exists|j: int| 0 <= j < flow.len() && #[trigger] token_matches(flows, flow[j], p) {
        let j = choose|j: int| 0 <= j < flow.len() && #[trigger] token_matches(flows, flow[j], p);
        assert(flow_matches(flows, flow.skip(j + 1), q.drop_first()));
    }
}

/// The empty query matches every flow, the empty flow too.
pub proof fn lemma_empty_query_matches(flows: Seq<Seq<Token>>, flow: Seq<Token>)
    ensures
        flow_matches(flows, flow, Seq::empty()),
{
}

/// A query of two predicates matches a flow if and only if the flow holds a
/// token satisfying the first before a token satisfying the second.
pub proof fn lemma_order_preserved(
    flows: Seq<Seq<Token>>,
    flow: Seq<Token>,
    p1: Predicate,
    p2: Predicate,
)
    ensures
        flow_matches(flows, flow, seq![p1, p2]) <==> exists|i: int, j: int|
            0 <= i < j < flow.len() && #[trigger] token_matches(flows, flow[i], p1)
                && #[trigger] token_matches(flows, flow[j], p2),
{
    let q = seq![p1, p2];
    assert(q[0] == p1);
    assert(q.drop_first() =~= seq![p2]);
    if flow_matches(flows, flow, q) {
        let i = choose|i: int|
            0 <= i < flow.len() && #[trigger] token_matches(flows, flow[i], q[0]) && flow_matches(
                flows,
                flow.skip(i + 1),
                q.drop_first(),
            );
        let g = flow.skip(i + 1);
        lemma_single_predicate(flows, g, p2);
        let j2 = choose|j2: int| 0 <= j2 < g.len() && #[trigger] token_matches(flows, g[j2], p2);
        assert(g[j2] == flow[i + 1 + j2]);
        assert(token_matches(flows, flow[i + 1 + j2], p2));
    }
    if exists|i: int, j: int|
        0 <= i < j < flow.len() && #[trigger] token_matches(flows, flow[i], p1)
            && #[trigger] token_matches(flows, flow[j], p2) {
        let (i, j) = choose|i: int, j: int|
            0 <= i < j < flow.len() && #[trigger] token_matches(flows, flow[i], p1)
                && #[trigger] token_matches(flows, flow[j], p2);
        let g = flow.skip(i + 1);
        lemma_single_predicate(flows, g, p2);
        assert(g[j - i - 1] == flow[j]);
        assert(token_matches(flows, g[j - i - 1], p2));
        assert(token_matches(flows, flow[i], q[0]));
        assert(flow_matches(flows, flow.skip(i + 1), q.drop_first()));
    }
}

/// A degree predicate matches a type variable exactly when as many flows of
/// the database hold that variable as the predicate says.
pub proof fn lemma_degree_predicate(
    flows: Seq<Seq<Token>>,
    name: Seq<char>,
    desc: Option<Seq<char>>,
    count: usize,
)
    ensures
        token_matches(flows, Token::TypeVar { name, desc }, Predicate::ByTypeVarDegree(count))
            <==> degree(flows, name) == count,
{
}

/// The degree of a name depends only on which flows hold it, not on how often
/// each of them does.
pub proof fn lemma_degree_counts_flows(
    flows: Seq<Seq<Token>>,
    others: Seq<Seq<Token>>,
    name: Seq<char>,
)
    requires
        flows.len() == others.len(),
        forall|f: int|
            0 <= f < flows.len() ==> has_type_var(#[trigger] flows[f], name) == has_type_var(
                others[f],
                name,
            ),
    ensures
        degree(flows, name) == degree(others, name),
    decreases flows.len(),
{
    if flows.len() > 0 {
        let (a, b) = (flows.drop_last(), others.drop_last());
        assert forall|f: int| 0 <= f < a.len() implies has_type_var(#[trigger] a[f], name)
            == has_type_var(b[f], name) by {
            assert(a[f] == flows[f]);
            assert(b[f] == others[f]);
        }
        lemma_degree_counts_flows(a, b, name);
        assert(flows.last() == flows[flows.len() - 1]);
    }
}

/// A constructor-argument predicate without an index matches an argument of
/// its constructor at every index; with an index, only at that index.
pub proof fn lemma_arg_index_wildcard(
    flows: Seq<Seq<Token>>,
    name: Seq<char>,
    index: usize,
    wanted: usize,
    token_desc: Option<Seq<char>>,
    query_desc: Option<Seq<char>>,
)
    ensures
        token_matches(
            flows,
            Token::ConstructorArg { name, arg_index: index, desc: token_desc },
            Predicate::ByConstructorArg { name, arg_index: None, desc: query_desc },
        ),
        token_matches(
            flows,
            Token::ConstructorArg { name, arg_index: index, desc: token_desc },
            Predicate::ByConstructorArg { name, arg_index: Some(wanted), desc: query_desc },
        ) <==> index == wanted,
{
}

} // verus!
