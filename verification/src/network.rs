//! A first form of the rename graph: source and destination nodes with their
//! in- and out-degrees, built one input path at a time.
use std::collections::HashMap;
use vstd::prelude::*;

use crate::paths::{file_name, join, parent, path_file_name, path_join, path_parent};
use crate::pattern::{check_pattern, regex_compiles, regex_error_text, regex_replace_all, replace_all};
use crate::structs::Opts;

verus! {

broadcast use vstd::std_specs::hash::group_hash_axioms;

/// A path in the graph, with its id and the number of edges into and out of
/// it.
#[derive(Debug)]
pub struct Node {
    pub file: String,
    pub id: usize,
    pub n_in: usize,
    pub n_out: usize,
}

impl View for Node {
    type V = (Seq<char>, usize, usize, usize);

    open spec fn view(&self) -> (Seq<char>, usize, usize, usize) {
        (self.file@, self.id, self.n_in, self.n_out)
    }
}

impl Node {
    /// A node for `path` with the given id and degrees.
    pub fn new(path: String, id: usize, n_in: usize, n_out: usize) -> (r: Node)
        ensures
            r@ == (path@, id, n_in, n_out),
    {
        Node { file: path, id, n_in, n_out }
    }
}

/// Which list of nodes a path is being added to.
#[derive(Clone, Copy, Debug, PartialEq, Eq, Structural)]
pub enum IsIn {
    Source,
    Destination,
}

/// Why the graph could not be built.
#[derive(Debug)]
pub enum NetworkError {
    /// The source pattern is not a regular expression.
    IrregularPattern { pattern: String, reason: String },
    /// The input path has no file name.
    NoFileName(String),
    /// The input path has no parent directory.
    NoParent(String),
    /// A source path appears more than once.
    RepeatedSource(String),
    /// A destination path appears more than once.
    RepeatedDestination(String),
    /// The source is already a destination and the destination a source.
    SourceAndDestinationKnown(String, String),
    /// The destination is already a source.
    DestinationIsSource(String),
}

/// The failures, by kind and path.
pub enum NetFailure {
    IrregularPattern { pattern: Seq<char>, reason: Seq<char> },
    NoFileName(Seq<char>),
    NoParent(Seq<char>),
    RepeatedSource(Seq<char>),
    RepeatedDestination(Seq<char>),
    SourceAndDestinationKnown(Seq<char>, Seq<char>),
    DestinationIsSource(Seq<char>),
}

impl NetworkError {
    /// The kind of failure and the paths it names.
    pub open spec fn failure(&self) -> NetFailure {
        match self {
            NetworkError::IrregularPattern { pattern, reason } => NetFailure::IrregularPattern {
                pattern: pattern@,
                reason: reason@,
            },
            NetworkError::NoFileName(p) => NetFailure::NoFileName(p@),
            NetworkError::NoParent(p) => NetFailure::NoParent(p@),
            NetworkError::RepeatedSource(p) => NetFailure::RepeatedSource(p@),
            NetworkError::RepeatedDestination(p) => NetFailure::RepeatedDestination(p@),
            NetworkError::SourceAndDestinationKnown(s, d) => NetFailure::SourceAndDestinationKnown(
                s@,
                d@,
            ),
            NetworkError::DestinationIsSource(p) => NetFailure::DestinationIsSource(p@),
        }
    }
}

/// The position of the first node for `path` in `nodes`.
pub open spec fn position_of(nodes: Seq<(Seq<char>, usize, usize, usize)>, path: Seq<char>) -> Option<
    int,
>
    decreases nodes.len(),
{
    if nodes.len() == 0 {
        None
    } else if nodes[0].0 == path {
        Some(0)
    } else {
        match position_of(nodes.drop_first(), path) {
            Some(i) => Some(i + 1),
            None => None,
        }
    }
}

/// A position found by `position_of` is that of a node for the path.
pub proof fn lemma_position_in_bounds(nodes: Seq<(Seq<char>, usize, usize, usize)>, path: Seq<char>)
    ensures
        position_of(nodes, path) matches Some(i) ==> 0 <= i < nodes.len() && nodes[i].0 == path,
    decreases nodes.len(),
{
    if nodes.len() > 0 {
        lemma_position_in_bounds(nodes.drop_first(), path);
    }
}

/// Looking `path` up before adding it to one list: it must not be in that
/// list already; the result is its position in the other list, if any.
pub open spec fn lookup(
    path: Seq<char>,
    own: Seq<(Seq<char>, usize, usize, usize)>,
    other: Seq<(Seq<char>, usize, usize, usize)>,
) -> Option<Option<int>> {
    if position_of(own, path) is Some {
        None
    } else {
        Some(position_of(other, path))
    }
}

/// The graph built so far: source nodes, destination nodes, edges from a
/// source id to a destination id, and the last id handed out.
pub struct NetState {
    pub sources: Seq<(Seq<char>, usize, usize, usize)>,
    pub destinations: Seq<(Seq<char>, usize, usize, usize)>,
    pub edges: Map<usize, usize>,
    pub last_id: int,
}

/// The graph after one more input path.
pub open spec fn net_step(
    st: NetState,
    file: Seq<char>,
    source_pattern: Seq<char>,
    dest_pattern: Seq<char>,
) -> Result<NetState, NetFailure> {
    match path_file_name(file) {
        None => Err(NetFailure::NoFileName(file)),
        Some(name) => match path_parent(file) {
            None => Err(NetFailure::NoParent(file)),
            Some(dir) => {
                let new_name = regex_replace_all(source_pattern, name, dest_pattern);
                let source_path = path_join(dir, name);
                let dest_path = path_join(dir, new_name);
                match lookup(source_path, st.sources, st.destinations) {
                    None => Err(NetFailure::RepeatedSource(source_path)),
                    Some(found_source) => match lookup(dest_path, st.destinations, st.sources) {
                        None => Err(NetFailure::RepeatedDestination(dest_path)),
                        Some(found_dest) => match (found_source, found_dest) {
                            (Some(_), Some(_)) => Err(
                                NetFailure::SourceAndDestinationKnown(source_path, dest_path),
                            ),
                            (None, Some(_)) => Err(NetFailure::DestinationIsSource(dest_path)),
                            (Some(i), None) => {
                                let node = st.destinations[i];
                                let d_id = st.last_id + 1;
                                Ok(
                                    NetState {
                                        destinations: st.destinations.update(
                                            i,
                                            (node.0, node.1, node.2, (node.3 + 1) as usize),
                                        ).push((dest_path, d_id as usize, 1usize, 0usize)),
                                        edges: st.edges.insert(node.1, d_id as usize),
                                        last_id: d_id,
                                        ..st
                                    },
                                )
                            },
                            (None, None) => {
                                let s_id = st.last_id + 1;
                                let d_id = st.last_id + 2;
                                Ok(
                                    NetState {
                                        sources: st.sources.push(
                                            (source_path, s_id as usize, 0usize, 1usize),
                                        ),
                                        destinations: st.destinations.push(
                                            (dest_path, d_id as usize, 1usize, 0usize),
                                        ),
                                        edges: st.edges.insert(s_id as usize, d_id as usize),
                                        last_id: d_id,
                                    },
                                )
                            },
                        },
                    },
                }
            },
        },
    }
}

/// The graph for a list of input paths, taken in order, or the first failure.
pub open spec fn net_files(
    files: Seq<Seq<char>>,
    source_pattern: Seq<char>,
    dest_pattern: Seq<char>,
) -> Result<NetState, NetFailure>
    decreases files.len(),
{
    if files.len() == 0 {
        Ok(NetState { sources: Seq::empty(), destinations: Seq::empty(), edges: Map::empty(), last_id: 0 })
    } else {
        match net_files(files.drop_last(), source_pattern, dest_pattern) {
            Err(e) => Err(e),
            Ok(st) => net_step(st, files.last(), source_pattern, dest_pattern),
        }
    }
}

/// A failure on a prefix of the input is the failure of the whole input.
pub proof fn lemma_failure_persists(
    files: Seq<Seq<char>>,
    m: int,
    source_pattern: Seq<char>,
    dest_pattern: Seq<char>,
)
    requires
        0 <= m <= files.len(),
        net_files(files.take(m), source_pattern, dest_pattern) is Err,
    ensures
        net_files(files, source_pattern, dest_pattern) == net_files(
            files.take(m),
            source_pattern,
            dest_pattern,
        ),
    decreases files.len() - m,
{
    if m < files.len() {
        assert(files.drop_last().take(m) =~= files.take(m));
        lemma_failure_persists(files.drop_last(), m, source_pattern, dest_pattern);
    } else {
        assert(files.take(m) =~= files);
    }
}

/// Whenever the graph can be built, its degree counts are balanced: every
/// source node counts one outgoing edge and no incoming one, and every
/// destination node one incoming edge.
pub proof fn lemma_network_balanced(
    files: Seq<Seq<char>>,
    source_pattern: Seq<char>,
    dest_pattern: Seq<char>,
)
    ensures
        net_files(files, source_pattern, dest_pattern) matches Ok(st) ==> {
            &&& forall|k: int|
                0 <= k < st.sources.len() ==> (#[trigger] st.sources[k]).2 == 0 && st.sources[k].3
                    == 1
            &&& forall|k: int| 0 <= k < st.destinations.len() ==> (#[trigger] st.destinations[k]).2 == 1
        },
    decreases files.len(),
{
    if files.len() > 0 {
        lemma_network_balanced(files.drop_last(), source_pattern, dest_pattern);
        if let Ok(st) = net_files(files.drop_last(), source_pattern, dest_pattern) {
            if let Ok(next) = net_step(st, files.last(), source_pattern, dest_pattern) {
                let file = files.last();
                let name = path_file_name(file)->Some_0;
                let dir = path_parent(file)->Some_0;
                let source_path = path_join(dir, name);
                let found = lookup(source_path, st.sources, st.destinations)->Some_0;
                if let Some(i) = found {
                    lemma_position_in_bounds(st.destinations, source_path);
                }
                assert forall|k: int| 0 <= k < next.destinations.len() implies (
                #[trigger] next.destinations[k]).2 == 1 by {
                    if k < st.destinations.len() {
                        assert(st.destinations[k].2 == 1);
                    }
                }
                assert forall|k: int| 0 <= k < next.sources.len() implies (
                #[trigger] next.sources[k]).2 == 0 && next.sources[k].3 == 1 by {
                    if k < st.sources.len() {
                        assert(st.sources[k].2 == 0 && st.sources[k].3 == 1);
                    }
                }
            }
        }
    }
}

/// Whether `v` is the id of a destination node.
pub open spec fn is_destination_id(st: NetState, v: usize) -> bool {
    exists|k: int| 0 <= k < st.destinations.len() && (#[trigger] st.destinations[k]).1 == v
}

/// Whether `v` is the id of a node, source or destination.
pub open spec fn is_node_id(st: NetState, v: usize) -> bool {
    is_destination_id(st, v) || exists|k: int|
        0 <= k < st.sources.len() && (#[trigger] st.sources[k]).1 == v
}

/// The shape of a graph built from `n` input paths: one destination node per
/// path, and no more sources; ids handed out from 1 without gaps, each to one node; an edge out
/// of every source; every edge from a node to a destination; and no two
/// edges into the same destination.
pub open spec fn network_shape(st: NetState, n: int) -> bool {
    &&& st.destinations.len() == n
    &&& st.sources.len() <= st.destinations.len()
    &&& st.last_id == st.sources.len() + st.destinations.len()
    &&& forall|k: int| 0 <= k < st.sources.len() ==> 1 <= (#[trigger] st.sources[k]).1 <= st.last_id
    &&& forall|k: int|
        0 <= k < st.destinations.len() ==> 1 <= (#[trigger] st.destinations[k]).1 <= st.last_id
    &&& forall|j: int, k: int|
        0 <= j < k < st.sources.len() ==> (#[trigger] st.sources[j]).1 != (#[trigger] st.sources[k]).1
    &&& forall|j: int, k: int|
        0 <= j < k < st.destinations.len() ==> (#[trigger] st.destinations[j]).1 != (
        #[trigger] st.destinations[k]).1
    &&& forall|j: int, k: int|
        0 <= j < st.sources.len() && 0 <= k < st.destinations.len() ==> (#[trigger] st.sources[j]).1
            != (#[trigger] st.destinations[k]).1
    &&& forall|k: int| 0 <= k < st.sources.len() ==> st.edges.contains_key((#[trigger] st.sources[k]).1)
    &&& forall|x: usize| #[trigger] st.edges.contains_key(x) ==> is_node_id(st, x)
    &&& forall|x: usize| #[trigger] st.edges.contains_key(x) ==> is_destination_id(st, st.edges[x])
    &&& forall|x: usize, y: usize|
        #[trigger] st.edges.contains_key(x) && #[trigger] st.edges.contains_key(y) && st.edges[x]
            == st.edges[y] ==> x == y
}

/// One more input path keeps the shape of the graph.
proof fn lemma_net_step_shape(
    st: NetState,
    n: int,
    file: Seq<char>,
    source_pattern: Seq<char>,
    dest_pattern: Seq<char>,
)
    requires
        network_shape(st, n),
        0 <= n,
        st.last_id + 2 <= usize::MAX,
    ensures
        net_step(st, file, source_pattern, dest_pattern) matches Ok(next) ==> network_shape(
            next,
            n + 1,
        ),
{
    if let Ok(next) = net_step(st, file, source_pattern, dest_pattern) {
        let name = path_file_name(file)->Some_0;
        let dir = path_parent(file)->Some_0;
        let source_path = path_join(dir, name);
        let found = lookup(source_path, st.sources, st.destinations)->Some_0;
        if let Some(i) = found {
            lemma_position_in_bounds(st.destinations, source_path);
            let d_id = (st.last_id + 1) as usize;
            assert(next.destinations.len() == st.destinations.len() + 1);
            assert forall|k: int| 0 <= k < st.destinations.len() implies (
            #[trigger] next.destinations[k]).1 == st.destinations[k].1 by {}
            assert(next.destinations[n].1 == d_id);
            assert forall|x: usize| #[trigger] next.edges.contains_key(x) implies is_node_id(next, x) by {
                if x == st.destinations[i].1 {
                    assert(next.destinations[i].1 == x);
                } else {
                    assert(st.edges.contains_key(x));
                    if is_destination_id(st, x) {
                        let k = choose|k: int|
                            0 <= k < st.destinations.len() && (#[trigger] st.destinations[k]).1 == x;
                        assert(next.destinations[k].1 == x);
                    } else {
                        let k = choose|k: int| 0 <= k < st.sources.len() && (#[trigger] st.sources[k]).1 == x;
                        assert(next.sources[k].1 == x);
                    }
                }
            }
            assert forall|x: usize| #[trigger] next.edges.contains_key(x) implies is_destination_id(
                next,
                next.edges[x],
            ) by {
                if x == st.destinations[i].1 {
                    assert(next.destinations[n].1 == next.edges[x]);
                } else {
                    let v = st.edges[x];
                    let k = choose|k: int|
                        0 <= k < st.destinations.len() && (#[trigger] st.destinations[k]).1 == v;
                    assert(next.destinations[k].1 == v);
                }
            }
            assert forall|x: usize, y: usize|
                #[trigger] next.edges.contains_key(x) && #[trigger] next.edges.contains_key(y)
                    && next.edges[x] == next.edges[y] implies x == y by {
                if x != st.destinations[i].1 && y != st.destinations[i].1 {
                    assert(st.edges.contains_key(x) && st.edges.contains_key(y));
                } else if x != st.destinations[i].1 {
                    let k = choose|k: int|
                        0 <= k < st.destinations.len() && (#[trigger] st.destinations[k]).1 == st.edges[x];
                    assert(st.destinations[k].1 <= st.last_id);
                } else if y != st.destinations[i].1 {
                    let k = choose|k: int|
                        0 <= k < st.destinations.len() && (#[trigger] st.destinations[k]).1 == st.edges[y];
                    assert(st.destinations[k].1 <= st.last_id);
                }
            }
        } else {
            let s_id = (st.last_id + 1) as usize;
            let d_id = (st.last_id + 2) as usize;
            assert forall|k: int| 0 <= k < st.destinations.len() implies (
            #[trigger] next.destinations[k]).1 == st.destinations[k].1 by {}
            assert forall|k: int| 0 <= k < st.sources.len() implies (#[trigger] next.sources[k]).1
                == st.sources[k].1 by {}
            assert(next.destinations[n].1 == d_id);
            assert(next.sources[st.sources.len() as int].1 == s_id);
            assert forall|x: usize| #[trigger] next.edges.contains_key(x) implies is_node_id(next, x) by {
                if x == s_id {
                    assert(next.sources[st.sources.len() as int].1 == x);
                } else {
                    assert(st.edges.contains_key(x));
                    if is_destination_id(st, x) {
                        let k = choose|k: int|
                            0 <= k < st.destinations.len() && (#[trigger] st.destinations[k]).1 == x;
                        assert(next.destinations[k].1 == x);
                    } else {
                        let k = choose|k: int| 0 <= k < st.sources.len() && (#[trigger] st.sources[k]).1 == x;
                        assert(next.sources[k].1 == x);
                    }
                }
            }
            assert forall|x: usize| #[trigger] next.edges.contains_key(x) implies is_destination_id(
                next,
                next.edges[x],
            ) by {
                if x == s_id {
                    assert(next.destinations[n].1 == next.edges[x]);
                } else {
                    let v = st.edges[x];
                    let k = choose|k: int|
                        0 <= k < st.destinations.len() && (#[trigger] st.destinations[k]).1 == v;
                    assert(next.destinations[k].1 == v);
                }
            }
            assert forall|x: usize, y: usize|
                #[trigger] next.edges.contains_key(x) && #[trigger] next.edges.contains_key(y)
                    && next.edges[x] == next.edges[y] implies x == y by {
                if x != s_id && y != s_id {
                    assert(st.edges.contains_key(x) && st.edges.contains_key(y));
                } else if x != s_id {
                    let k = choose|k: int|
                        0 <= k < st.destinations.len() && (#[trigger] st.destinations[k]).1 == st.edges[x];
                    assert(st.destinations[k].1 <= st.last_id);
                } else if y != s_id {
                    let k = choose|k: int|
                        0 <= k < st.destinations.len() && (#[trigger] st.destinations[k]).1 == st.edges[y];
                    assert(st.destinations[k].1 <= st.last_id);
                }
            }
            assert forall|k: int| 0 <= k < next.sources.len() implies next.edges.contains_key(
                (#[trigger] next.sources[k]).1,
            ) by {
                if k < st.sources.len() {
                    assert(st.edges.contains_key(st.sources[k].1));
                }
            }
        }
    }
}

/// Whenever the graph can be built from `files`, it has the shape of
/// `network_shape`: one destination per path, ids from 1 to the last one
/// each given to a single node, an edge out of every source, every edge
/// from a node to a destination, and no destination entered twice.
pub proof fn lemma_network_shape(
    files: Seq<Seq<char>>,
    source_pattern: Seq<char>,
    dest_pattern: Seq<char>,
)
    requires
        files.len() < usize::MAX / 2,
    ensures
        net_files(files, source_pattern, dest_pattern) matches Ok(st) ==> network_shape(
            st,
            files.len() as int,
        ),
    decreases files.len(),
{
    if files.len() > 0 {
        lemma_network_shape(files.drop_last(), source_pattern, dest_pattern);
        if let Ok(st) = net_files(files.drop_last(), source_pattern, dest_pattern) {
            lemma_net_step_shape(
                st,
                files.len() - 1,
                files.last(),
                source_pattern,
                dest_pattern,
            );
        }
    }
}

/// The source path of an input path, as the graph names it: its file name
/// in its parent directory.
pub open spec fn source_path_of(file: Seq<char>) -> Option<Seq<char>> {
    match path_file_name(file) {
        None => None,
        Some(name) => match path_parent(file) {
            None => None,
            Some(dir) => Some(path_join(dir, name)),
        },
    }
}

/// No two input paths name the same source path.
pub open spec fn distinct_sources(files: Seq<Seq<char>>) -> bool {
    forall|i: int, j: int|
        0 <= i < j < files.len() && (#[trigger] source_path_of(files[i])) is Some ==> source_path_of(
            files[i],
        ) != #[trigger] source_path_of(files[j])
}

/// The out-degrees of a graph built from `files`: no destination has more
/// than one outgoing edge, a destination has one exactly when its id starts
/// an edge (and then it is the source path of some input), and there is one
/// edge per input path.
pub open spec fn network_degrees(st: NetState, files: Seq<Seq<char>>) -> bool {
    &&& forall|k: int| 0 <= k < st.destinations.len() ==> (#[trigger] st.destinations[k]).3 <= 1
    &&& forall|k: int|
        0 <= k < st.destinations.len() ==> (st.edges.contains_key(
            (#[trigger] st.destinations[k]).1,
        ) <==> st.destinations[k].3 == 1)
    &&& forall|k: int|
        0 <= k < st.destinations.len() && (#[trigger] st.destinations[k]).3 == 1 ==> exists|j: int|
            0 <= j < files.len() && #[trigger] source_path_of(files[j]) == Some(
                st.destinations[k].0,
            )
    &&& st.edges.dom().finite()
    &&& st.edges.dom().len() == files.len()
}

/// No id above the last one handed out starts an edge.
proof fn lemma_fresh_key(st: NetState, n: int, x: usize)
    requires
        network_shape(st, n),
        x > st.last_id,
    ensures
        !st.edges.contains_key(x),
{
    if st.edges.contains_key(x) {
        assert(is_node_id(st, x));
        if is_destination_id(st, x) {
            let k = choose|k: int| 0 <= k < st.destinations.len() && (#[trigger] st.destinations[k]).1 == x;
            assert(st.destinations[k].1 <= st.last_id);
        } else {
            let k = choose|k: int| 0 <= k < st.sources.len() && (#[trigger] st.sources[k]).1 == x;
            assert(st.sources[k].1 <= st.last_id);
        }
    }
}

/// One more input path keeps the out-degrees, when no two inputs share a
/// source path.
proof fn lemma_net_step_degrees(
    st: NetState,
    files: Seq<Seq<char>>,
    source_pattern: Seq<char>,
    dest_pattern: Seq<char>,
)
    requires
        files.len() > 0,
        network_shape(st, files.len() - 1),
        network_degrees(st, files.drop_last()),
        distinct_sources(files),
        st.last_id + 2 <= usize::MAX,
    ensures
        net_step(st, files.last(), source_pattern, dest_pattern) matches Ok(next) ==> network_degrees(
            next,
            files,
        ),
{
    let m = files.len() - 1;
    if let Ok(next) = net_step(st, files.last(), source_pattern, dest_pattern) {
        let file = files.last();
        let name = path_file_name(file)->Some_0;
        let dir = path_parent(file)->Some_0;
        let source_path = path_join(dir, name);
        assert(source_path_of(files[m]) == Some(source_path));
        let found = lookup(source_path, st.sources, st.destinations)->Some_0;
        let n = st.destinations.len() as int;
        if let Some(i) = found {
            lemma_position_in_bounds(st.destinations, source_path);
            let key = st.destinations[i].1;
            let d_id = (st.last_id + 1) as usize;
            if st.destinations[i].3 == 1 {
                let j = choose|j: int|
                    0 <= j < files.drop_last().len() && #[trigger] source_path_of(files.drop_last()[j])
                        == Some(st.destinations[i].0);
                assert(files.drop_last()[j] == files[j]);
                assert(source_path_of(files[j]) != source_path_of(files[m]));
            }
            assert(!st.edges.contains_key(key));
            lemma_fresh_key(st, n, d_id);
            assert(next.edges.dom() =~= st.edges.dom().insert(key));
            assert forall|k: int| 0 <= k < next.destinations.len() implies (
            #[trigger] next.destinations[k]).3 <= 1 && (next.edges.contains_key(next.destinations[k].1)
                <==> next.destinations[k].3 == 1) by {
                if k < n && k != i {
                    assert(next.destinations[k] == st.destinations[k]);
                    assert(st.destinations[k].1 != key);
                } else if k == n {
                    assert(next.destinations[k].1 == d_id);
                }
            }
            assert forall|k: int|
                0 <= k < next.destinations.len() && (#[trigger] next.destinations[k]).3 == 1 implies exists|
                j: int|
                0 <= j < files.len() && #[trigger] source_path_of(files[j]) == Some(
                    next.destinations[k].0,
                ) by {
                if k == i {
                    assert(source_path_of(files[m]) == Some(next.destinations[k].0));
                } else if k < n {
                    assert(next.destinations[k] == st.destinations[k]);
                    let j = choose|j: int|
                        0 <= j < files.drop_last().len() && #[trigger] source_path_of(
                            files.drop_last()[j],
                        ) == Some(st.destinations[k].0);
                    assert(files.drop_last()[j] == files[j]);
                }
            }
        } else {
            let s_id = (st.last_id + 1) as usize;
            let d_id = (st.last_id + 2) as usize;
            lemma_fresh_key(st, n, s_id);
            lemma_fresh_key(st, n, d_id);
            assert(next.edges.dom() =~= st.edges.dom().insert(s_id));
            assert forall|k: int| 0 <= k < next.destinations.len() implies (
            #[trigger] next.destinations[k]).3 <= 1 && (next.edges.contains_key(next.destinations[k].1)
                <==> next.destinations[k].3 == 1) by {
                if k < n {
                    assert(next.destinations[k] == st.destinations[k]);
                    assert(st.destinations[k].1 <= st.last_id);
                } else {
                    assert(next.destinations[k].1 == d_id);
                }
            }
            assert forall|k: int|
                0 <= k < next.destinations.len() && (#[trigger] next.destinations[k]).3 == 1 implies exists|
                j: int|
                0 <= j < files.len() && #[trigger] source_path_of(files[j]) == Some(
                    next.destinations[k].0,
                ) by {
                if k < n {
                    assert(next.destinations[k] == st.destinations[k]);
                    let j = choose|j: int|
                        0 <= j < files.drop_last().len() && #[trigger] source_path_of(
                            files.drop_last()[j],
                        ) == Some(st.destinations[k].0);
                    assert(files.drop_last()[j] == files[j]);
                }
            }
        }
    }
}

/// Whenever the graph can be built from input paths that name distinct
/// source paths, it has the shape of `network_shape` and the out-degrees of
/// `network_degrees`: no destination has more than one outgoing edge, and
/// there is exactly one edge per input path (so as many edges as
/// destinations). Inputs that repeat a source path are left out: with them
/// an edge could be replaced rather than added.
pub proof fn lemma_network_degrees(
    files: Seq<Seq<char>>,
    source_pattern: Seq<char>,
    dest_pattern: Seq<char>,
)
    requires
        files.len() < usize::MAX / 2,
        distinct_sources(files),
    ensures
        net_files(files, source_pattern, dest_pattern) matches Ok(st) ==> network_shape(
            st,
            files.len() as int,
        ) && network_degrees(st, files),
    decreases files.len(),
{
    lemma_network_shape(files, source_pattern, dest_pattern);
    if files.len() > 0 {
        let rest = files.drop_last();
        assert forall|i: int, j: int|
            0 <= i < j < rest.len() && (#[trigger] source_path_of(rest[i])) is Some implies source_path_of(
                rest[i],
            ) != #[trigger] source_path_of(rest[j]) by {
            assert(rest[i] == files[i] && rest[j] == files[j]);
        }
        lemma_network_degrees(rest, source_pattern, dest_pattern);
        if let Ok(st) = net_files(rest, source_pattern, dest_pattern) {
            lemma_net_step_degrees(st, files, source_pattern, dest_pattern);
        }
    } else {
        assert(Map::<usize, usize>::empty().dom() =~= Set::<usize>::empty());
    }
}

/// The destination path of an input path: the file name after
/// substitution, in the input's parent directory.
pub open spec fn dest_path_of(file: Seq<char>, source_pattern: Seq<char>, dest_pattern: Seq<char>) -> Option<
    Seq<char>,
> {
    match path_file_name(file) {
        None => None,
        Some(name) => match path_parent(file) {
            None => None,
            Some(dir) => Some(path_join(dir, regex_replace_all(source_pattern, name, dest_pattern))),
        },
    }
}

/// Whenever the graph can be built, its `k`-th destination node is the one
/// made for the `k`-th input path, and it carries that input's destination
/// path: the new file name joined to the input's own directory. Every source
/// node carries the source path of some input.
pub proof fn lemma_network_paths(
    files: Seq<Seq<char>>,
    source_pattern: Seq<char>,
    dest_pattern: Seq<char>,
)
    ensures
        net_files(files, source_pattern, dest_pattern) matches Ok(st) ==> {
            &&& st.destinations.len() == files.len()
            &&& forall|k: int|
                0 <= k < files.len() ==> dest_path_of(files[k], source_pattern, dest_pattern)
                    == Some((#[trigger] st.destinations[k]).0)
            &&& forall|k: int|
                0 <= k < st.sources.len() ==> exists|j: int|
                    0 <= j < files.len() && source_path_of(files[j]) == Some(
                        (#[trigger] st.sources[k]).0,
                    )
        },
    decreases files.len(),
{
    if files.len() > 0 {
        let rest = files.drop_last();
        lemma_network_paths(rest, source_pattern, dest_pattern);
        if let Ok(st) = net_files(rest, source_pattern, dest_pattern) {
            if let Ok(next) = net_step(st, files.last(), source_pattern, dest_pattern) {
                let m = rest.len() as int;
                let file = files.last();
                let name = path_file_name(file)->Some_0;
                let dir = path_parent(file)->Some_0;
                let source_path = path_join(dir, name);
                let found = lookup(source_path, st.sources, st.destinations)->Some_0;
                if let Some(i) = found {
                    lemma_position_in_bounds(st.destinations, source_path);
                }
                assert(next.destinations.len() == m + 1);
                assert forall|k: int| 0 <= k < files.len() implies dest_path_of(
                    files[k],
                    source_pattern,
                    dest_pattern,
                ) == Some((#[trigger] next.destinations[k]).0) by {
                    if k < m {
                        assert(rest[k] == files[k]);
                        assert(next.destinations[k].0 == st.destinations[k].0);
                    }
                }
                assert forall|k: int| 0 <= k < next.sources.len() implies exists|j: int|
                    0 <= j < files.len() && source_path_of(files[j]) == Some(
                        (#[trigger] next.sources[k]).0,
                    ) by {
                    if k < st.sources.len() {
                        assert(next.sources[k] == st.sources[k]);
                        let j = choose|j: int|
                            0 <= j < rest.len() && source_path_of(rest[j]) == Some(
                                (#[trigger] st.sources[k]).0,
                            );
                        assert(rest[j] == files[j]);
                    } else {
                        assert(source_path_of(files[m]) == Some(next.sources[k].0));
                    }
                }
            }
        }
    }
}

/// The views of a list of nodes.
pub open spec fn node_views(nodes: Seq<Node>) -> Seq<(Seq<char>, usize, usize, usize)> {
    nodes.map_values(|n: Node| n@)
}

/// The position of `path` in `nodes` as a machine integer.
fn position(nodes: &[Node], path: &String) -> (r: Option<usize>)
    ensures
        match r {
            Some(i) => position_of(node_views(nodes@), path@) == Some(i as int),
            None => position_of(node_views(nodes@), path@) is None,
        },
{
    let ghost views = node_views(nodes@);
    let mut i: usize = 0;
    while i < nodes.len()
        invariant
            0 <= i <= nodes@.len(),
            views == node_views(nodes@),
            forall|j: int| 0 <= j < i ==> views[j].0 != path@,
        decreases nodes@.len() - i,
    {
        if nodes[i].file == *path {
            proof {
                lemma_position_of(views, path@, i as int);
            }
            return Some(i);
        }
        i = i + 1;
    }
    proof {
        lemma_position_of(views, path@, i as int);
    }
    None
}

/// `position_of` finds the first node for a path.
proof fn lemma_position_of(nodes: Seq<(Seq<char>, usize, usize, usize)>, path: Seq<char>, i: int)
    requires
        0 <= i <= nodes.len(),
        forall|j: int| 0 <= j < i ==> nodes[j].0 != path,
    ensures
        i < nodes.len() && nodes[i].0 == path ==> position_of(nodes, path) == Some(i),
        i == nodes.len() ==> position_of(nodes, path) is None,
    decreases i,
{
    if i > 0 {
        lemma_position_of(nodes.drop_first(), path, i - 1);
    }
}

/// Looks up `path`, which is about to be added to the list that
/// `path_type` names and is not in it yet: its position in the other list,
/// if any.
fn get_id_if_exists(path: &String, svec: &[Node], dvec: &[Node], path_type: IsIn) -> (r: Option<
    usize,
>)
    requires
        match path_type {
            IsIn::Source => position_of(node_views(svec@), path@) is None,
            IsIn::Destination => position_of(node_views(dvec@), path@) is None,
        },
    ensures
        ({
            let found = match path_type {
                IsIn::Source => position_of(node_views(dvec@), path@),
                IsIn::Destination => position_of(node_views(svec@), path@),
            };
            found == match r {
                Some(i) => Some(i as int),
                None => None::<int>,
            }
        }),
{
    match path_type {
        IsIn::Source => position(dvec, path),
        IsIn::Destination => position(svec, path),
    }
}

/// What building the graph gives: a refused pattern, the first failure
/// among the input paths, or the graph.
pub open spec fn network_outcome(
    files: Seq<Seq<char>>,
    source_pattern: Seq<char>,
    dest_pattern: Seq<char>,
) -> Result<NetState, NetFailure> {
    if !regex_compiles(source_pattern) {
        Err(
            NetFailure::IrregularPattern {
                pattern: source_pattern,
                reason: regex_error_text(source_pattern),
            },
        )
    } else {
        net_files(files, source_pattern, dest_pattern)
    }
}

/// The graph of `opts` as the `create_network` family computes it.
pub open spec fn opts_network(opts: Opts) -> Result<NetState, NetFailure> {
    network_outcome(
        opts.files@.map_values(|f: String| f@),
        opts.source_pattern@,
        opts.dest_pattern@,
    )
}

/// Whether a result holds exactly the graph, or the failure, of `outcome`.
pub open spec fn network_result_is(
    r: Result<(Vec<Node>, Vec<Node>, HashMap<usize, usize>), NetworkError>,
    outcome: Result<NetState, NetFailure>,
) -> bool {
    match outcome {
        Err(failure) => (r matches Err(e) && e.failure() == failure),
        Ok(st) => (r matches Ok((sources, destinations, edges)) && node_views(sources@)
            == st.sources && node_views(destinations@) == st.destinations && edges@ == st.edges),
    }
}

/// Builds the graph of moves, as `create_network`, or says why it cannot
/// be built: the pattern is refused, a path has no file name or parent, a
/// source or destination repeats, or a destination is already a source.
pub fn try_create_network(opts: &Opts) -> (r: Result<
    (Vec<Node>, Vec<Node>, HashMap<usize, usize>),
    NetworkError,
>)
    requires
        opts.files@.len() < usize::MAX / 2,
    ensures
        network_result_is(r, opts_network(*opts)),
{
    match build_network(opts) {
        Ok(_) => Ok(create_network(opts)),
        Err(e) => Err(e),
    }
}

/// Builds the graph of moves: for each input path, the source node (its
/// file name in its directory) and the destination node (the name after
/// substitution, in the same directory), numbered from 1 in order, with an
/// edge from each source id to its destination id. A source that is already
/// a destination gets no node of its own: that destination gains an
/// outgoing edge. The inputs are those on which this succeeds (see
/// `opts_network`); a repeated source or destination, or a destination that
/// is already a source, is left out.
pub fn create_network(opts: &Opts) -> (r: (Vec<Node>, Vec<Node>, HashMap<usize, usize>))
    requires
        opts.files@.len() < usize::MAX / 2,
        opts_network(*opts) is Ok,
    ensures
        network_result_is(Ok(r), opts_network(*opts)),
{
    build_network(opts).unwrap()
}

/// The work of `try_create_network`.
fn build_network(opts: &Opts) -> (r: Result<
    (Vec<Node>, Vec<Node>, HashMap<usize, usize>),
    NetworkError,
>)
    requires
        opts.files@.len() < usize::MAX / 2,
    ensures
        network_result_is(r, opts_network(*opts)),
{
    match check_pattern(opts.source_pattern.as_str()) {
        Ok(()) => {},
        Err(reason) => {
            return Err(
                NetworkError::IrregularPattern { pattern: opts.source_pattern.clone(), reason },
            );
        },
    }
    let ghost files = opts.files@.map_values(|f: String| f@);
    let ghost sp = opts.source_pattern@;
    let ghost dp = opts.dest_pattern@;
    let mut sources: Vec<Node> = Vec::new();
    let mut destinations: Vec<Node> = Vec::new();
    let mut edges: HashMap<usize, usize> = HashMap::new();
    let mut id: usize = 0;
    let mut i: usize = 0;
    while i < opts.files.len()
        invariant
            0 <= i <= opts.files@.len(),
            opts.files@.len() < usize::MAX / 2,
            files == opts.files@.map_values(|f: String| f@),
            sp == opts.source_pattern@,
            dp == opts.dest_pattern@,
            regex_compiles(sp),
            id <= 2 * i,
            forall|k: int| 0 <= k < destinations@.len() ==> #[trigger] destinations@[k].n_out <= id,
            (net_files(files.take(i as int), sp, dp) matches Ok(st) && node_views(sources@)
                == st.sources && node_views(destinations@) == st.destinations && edges@ == st.edges
                && st.last_id == id),
        decreases opts.files@.len() - i,
    {
        let ghost st = net_files(files.take(i as int), sp, dp)->Ok_0;
        assert(files.take(i + 1).drop_last() =~= files.take(i as int));
        assert(files.take(i + 1).last() == opts.files@[i as int]@);
        let f = &opts.files[i];
        let name = match file_name(f.as_str()) {
            Some(name) => name,
            None => {
                proof {
                    lemma_failure_persists(files, i + 1, sp, dp);
                }
                return Err(NetworkError::NoFileName(f.clone()));
            },
        };
        let new_name = replace_all(opts.source_pattern.as_str(), name.as_str(), opts.dest_pattern.as_str());
        let dir = match parent(f.as_str()) {
            Some(dir) => dir,
            None => {
                proof {
                    lemma_failure_persists(files, i + 1, sp, dp);
                }
                return Err(NetworkError::NoParent(f.clone()));
            },
        };
        let source_path = join(dir.as_str(), name.as_str());
        let dest_path = join(dir.as_str(), new_name.as_str());
        if position(sources.as_slice(), &source_path).is_some() {
            proof {
                lemma_failure_persists(files, i + 1, sp, dp);
            }
            return Err(NetworkError::RepeatedSource(source_path));
        }
        let found_source = get_id_if_exists(
            &source_path,
            sources.as_slice(),
            destinations.as_slice(),
            IsIn::Source,
        );
        if position(destinations.as_slice(), &dest_path).is_some() {
            proof {
                lemma_failure_persists(files, i + 1, sp, dp);
            }
            return Err(NetworkError::RepeatedDestination(dest_path));
        }
        let found_dest = get_id_if_exists(
            &dest_path,
            sources.as_slice(),
            destinations.as_slice(),
            IsIn::Destination,
        );
        match (found_source, found_dest) {
            (Some(_), Some(_)) => {
                proof {
                    lemma_failure_persists(files, i + 1, sp, dp);
                }
                return Err(NetworkError::SourceAndDestinationKnown(source_path, dest_path));
            },
            (None, Some(_)) => {
                proof {
                    lemma_failure_persists(files, i + 1, sp, dp);
                }
                return Err(NetworkError::DestinationIsSource(dest_path));
            },
            (Some(k), None) => {
                proof {
                    lemma_position_in_bounds(st.destinations, source_path@);
                }
                let known = &destinations[k];
                let known_id = known.id;
                let updated = Node::new(known.file.clone(), known.id, known.n_in, known.n_out + 1);
                destinations.set(k, updated);
                id = id + 1;
                destinations.push(Node::new(dest_path, id, 1, 0));
                edges.insert(known_id, id);
                proof {
                    let old_node = st.destinations[k as int];
                    assert(node_views(destinations@) =~= st.destinations.update(
                        k as int,
                        (old_node.0, old_node.1, old_node.2, (old_node.3 + 1) as usize),
                    ).push((dest_path@, id, 1usize, 0usize)));
                }
            },
            (None, None) => {
                id = id + 1;
                let s_id = id;
                sources.push(Node::new(source_path, s_id, 0, 1));
                id = id + 1;
                let d_id = id;
                destinations.push(Node::new(dest_path, d_id, 1, 0));
                edges.insert(s_id, d_id);
                assert(node_views(sources@) =~= st.sources.push((source_path@, s_id, 0usize, 1usize)));
                assert(node_views(destinations@) =~= st.destinations.push((dest_path@, d_id, 1usize, 0usize)));
            },
        }
        i = i + 1;
    }
    assert(files.take(opts.files@.len() as int) =~= files);
    Ok((sources, destinations, edges))
}

} // verus!
