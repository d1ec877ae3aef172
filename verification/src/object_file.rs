use vstd::prelude::*;

verus! {

/// The index of the main route of a map.
pub const MAIN_ROUTE_INDEX: usize = 0;

/// The kind of a counted repetition: `{n}`, `{n..}` or `{m..n}`.
#[derive(Debug, PartialEq, Eq, Clone, Copy)]
pub enum RepetitionType {
    Repeat(usize),
    RepeatFrom(usize),
    RepeatRange(usize, usize),
}

/// An item of a character set: a character or an inclusive range.
#[derive(Debug, PartialEq, Eq, Clone, Copy)]
pub enum CharSetItem {
    Char(char),
    Range(char, char),
}

/// What a path of the matching graph does when it is taken.
#[derive(Debug, PartialEq)]
pub enum Transition {
    /// Moves on without reading anything.
    Jump,
    Char(char),
    String(String),
    AnyChar,
    /// The items and whether the set is negative.
    CharSet(Vec<CharSetItem>, bool),
    CaptureStart(usize),
    CaptureEnd(usize),
    BackReference(usize),
    /// `is_end` when true, `is_start` when false.
    LineBoundaryAssertion(bool),
    /// `is_not_bound` when true, `is_bound` when false.
    WordBoundaryAssertion(bool),
    CounterReset,
    CounterSave,
    CounterInc,
    RepetitionForward(RepetitionType),
    RepetitionBack(RepetitionType),
    /// The route of the assertion and whether it is negative.
    LookAheadAssertion(usize, bool),
    /// The route of the assertion, whether it is negative, and the match length.
    LookBehindAssertion(usize, bool, usize),
}

/// A transition with its texts and items taken as sequences.
pub enum TransitionView {
    Jump,
    Char(char),
    String(Seq<char>),
    AnyChar,
    CharSet(Seq<CharSetItem>, bool),
    CaptureStart(usize),
    CaptureEnd(usize),
    BackReference(usize),
    LineBoundaryAssertion(bool),
    WordBoundaryAssertion(bool),
    CounterReset,
    CounterSave,
    CounterInc,
    RepetitionForward(RepetitionType),
    RepetitionBack(RepetitionType),
    LookAheadAssertion(usize, bool),
    LookBehindAssertion(usize, bool, usize),
}

impl View for Transition {
    type V = TransitionView;

    open spec fn view(&self) -> TransitionView {
        match self {
            Transition::Jump => TransitionView::Jump,
            Transition::Char(c) => TransitionView::Char(*c),
            Transition::String(s) => TransitionView::String(s@),
            Transition::AnyChar => TransitionView::AnyChar,
            Transition::CharSet(items, negative) => TransitionView::CharSet(items@, *negative),
            Transition::CaptureStart(i) => TransitionView::CaptureStart(*i),
            Transition::CaptureEnd(i) => TransitionView::CaptureEnd(*i),
            Transition::BackReference(i) => TransitionView::BackReference(*i),
            Transition::LineBoundaryAssertion(b) => TransitionView::LineBoundaryAssertion(*b),
            Transition::WordBoundaryAssertion(b) => TransitionView::WordBoundaryAssertion(*b),
            Transition::CounterReset => TransitionView::CounterReset,
            Transition::CounterSave => TransitionView::CounterSave,
            Transition::CounterInc => TransitionView::CounterInc,
            Transition::RepetitionForward(t) => TransitionView::RepetitionForward(*t),
            Transition::RepetitionBack(t) => TransitionView::RepetitionBack(*t),
            Transition::LookAheadAssertion(r, n) => TransitionView::LookAheadAssertion(*r, *n),
            Transition::LookBehindAssertion(r, n, l) => TransitionView::LookBehindAssertion(
                *r,
                *n,
                *l,
            ),
        }
    }
}

/// A path from a node to `target_node_index`.
pub struct Path {
    pub target_node_index: usize,
    pub transition: Transition,
}

/// A node and the paths that leave it, in the order they were made.
pub struct Node {
    pub paths: Vec<Path>,
}

/// A matching graph: its nodes, and where matching enters and leaves it.
pub struct Route {
    pub nodes: Vec<Node>,
    pub entry_node_index: usize,
    pub exit_node_index: usize,
    /// Matching may only begin at the start of the text.
    pub is_fixed_matching_begin_point: bool,
}

pub struct CaptureGroup {
    pub name: Option<String>,
}

/// The compiled form of a regular expression: the main route (index 0),
/// the routes of lookaround assertions, and the capture groups.
pub struct RouteMap {
    pub routes: Vec<Route>,
    pub capture_groups: Vec<CaptureGroup>,
}

/// A part of a route, entered at `in_node_index` and left at `out_node_index`.
#[derive(Debug, PartialEq, Eq, Clone, Copy)]
pub struct Component {
    pub in_node_index: usize,
    pub out_node_index: usize,
}

impl Component {
    pub fn new(in_node_index: usize, out_node_index: usize) -> (component: Self)
        ensures
            component == (Component { in_node_index, out_node_index }),
    {
        Component { in_node_index, out_node_index }
    }
}

/// A route as the paths of each node and its ports.
pub struct RouteView {
    pub nodes: Seq<Seq<(usize, TransitionView)>>,
    pub entry_node_index: usize,
    pub exit_node_index: usize,
    pub is_fixed_matching_begin_point: bool,
}

/// A map as its routes and the names of its capture groups.
pub struct MapView {
    pub routes: Seq<RouteView>,
    pub capture_groups: Seq<Option<Seq<char>>>,
}

pub open spec fn path_view(path: Path) -> (usize, TransitionView) {
    (path.target_node_index, path.transition@)
}

pub open spec fn node_view(node: Node) -> Seq<(usize, TransitionView)> {
    node.paths@.map_values(|p: Path| path_view(p))
}

pub open spec fn route_view(route: Route) -> RouteView {
    RouteView {
        nodes: route.nodes@.map_values(|n: Node| node_view(n)),
        entry_node_index: route.entry_node_index,
        exit_node_index: route.exit_node_index,
        is_fixed_matching_begin_point: route.is_fixed_matching_begin_point,
    }
}

pub open spec fn group_view(group: CaptureGroup) -> Option<Seq<char>> {
    match group.name {
        Some(name) => Some(name@),
        None => None,
    }
}

impl View for Route {
    type V = RouteView;

    open spec fn view(&self) -> RouteView {
        route_view(*self)
    }
}

impl View for RouteMap {
    type V = MapView;

    open spec fn view(&self) -> MapView {
        MapView {
            routes: self.routes@.map_values(|r: Route| route_view(r)),
            capture_groups: self.capture_groups@.map_values(|g: CaptureGroup| group_view(g)),
        }
    }
}

/// The map before anything is compiled into it.
pub open spec fn empty_map() -> MapView {
    MapView { routes: seq![], capture_groups: seq![] }
}

/// The map with a new empty route, and the route's index.
pub open spec fn map_with_route(m: MapView) -> (usize, MapView) {
    (
        m.routes.len() as usize,
        MapView {
            routes: m.routes.push(
                RouteView {
                    nodes: seq![],
                    entry_node_index: 0,
                    exit_node_index: 0,
                    is_fixed_matching_begin_point: false,
                },
            ),
            ..m
        },
    )
}

/// The map with a new capture group, and the group's index.
pub open spec fn map_with_group(m: MapView, name: Option<Seq<char>>) -> (usize, MapView) {
    (m.capture_groups.len() as usize, MapView { capture_groups: m.capture_groups.push(name), ..m })
}

/// The map with a new node in route `r`, and the node's index.
pub open spec fn map_with_node(m: MapView, r: int) -> (usize, MapView) {
    let route = m.routes[r];
    (
        route.nodes.len() as usize,
        MapView {
            routes: m.routes.update(r, RouteView { nodes: route.nodes.push(seq![]), ..route }),
            ..m
        },
    )
}

/// The map with a new path from `source` to `target` in route `r`.
pub open spec fn map_with_path(
    m: MapView,
    r: int,
    source: int,
    target: usize,
    transition: TransitionView,
) -> MapView {
    let route = m.routes[r];
    MapView {
        routes: m.routes.update(
            r,
            RouteView {
                nodes: route.nodes.update(source, route.nodes[source].push((target, transition))),
                ..route
            },
        ),
        ..m
    }
}

/// The map with the ports of route `r` set.
pub open spec fn map_with_ports(
    m: MapView,
    r: int,
    entry: usize,
    exit: usize,
    fixed: bool,
) -> MapView {
    let route = m.routes[r];
    MapView {
        routes: m.routes.update(
            r,
            RouteView {
                entry_node_index: entry,
                exit_node_index: exit,
                is_fixed_matching_begin_point: fixed,
                ..route
            },
        ),
        ..m
    }
}

/// The transition names only capture groups and routes that the map has.
pub open spec fn transition_refers_within(transition: TransitionView, m: MapView) -> bool {
    match transition {
        TransitionView::CaptureStart(i) => i < m.capture_groups.len(),
        TransitionView::CaptureEnd(i) => i < m.capture_groups.len(),
        TransitionView::BackReference(i) => i < m.capture_groups.len(),
        TransitionView::LookAheadAssertion(route, _) => route < m.routes.len(),
        TransitionView::LookBehindAssertion(route, _, _) => route < m.routes.len(),
        _ => true,
    }
}

/// Every path leads to a node of its own route, and every transition names
/// a capture group or a route that the map has.
pub open spec fn map_closed(m: MapView) -> bool {
    forall|r: int, n: int, p: int|
        0 <= r < m.routes.len() && 0 <= n < m.routes[r].nodes.len() && 0 <= p
            < m.routes[r].nodes[n].len() ==> {
            &&& (#[trigger] m.routes[r].nodes[n][p]).0 < m.routes[r].nodes.len()
            &&& transition_refers_within(m.routes[r].nodes[n][p].1, m)
        }
}

/// The entry and the exit of every route are nodes of it, or still 0.
pub open spec fn ports_within(m: MapView) -> bool {
    forall|r: int|
        0 <= r < m.routes.len() ==> {
            &&& (#[trigger] m.routes[r]).entry_node_index == 0 || m.routes[r].entry_node_index
                < m.routes[r].nodes.len()
            &&& m.routes[r].exit_node_index == 0 || m.routes[r].exit_node_index
                < m.routes[r].nodes.len()
        }
}

/// A transition that names what `m0` has names what `m1` has when `m1` has
/// as many groups and routes.
pub proof fn lemma_refers_within_grows(t: TransitionView, m0: MapView, m1: MapView)
    requires
        transition_refers_within(t, m0),
        m0.capture_groups.len() <= m1.capture_groups.len(),
        m0.routes.len() <= m1.routes.len(),
    ensures
        transition_refers_within(t, m1),
{
}

/// A new node keeps a map closed and its ports within.
pub proof fn lemma_closed_with_node(m: MapView, r: int)
    requires
        map_closed(m),
        ports_within(m),
        0 <= r < m.routes.len(),
    ensures
        map_closed(map_with_node(m, r).1),
        ports_within(map_with_node(m, r).1),
{
    let m1 = map_with_node(m, r).1;
    assert forall|a: int, n: int, p: int|
        0 <= a < m1.routes.len() && 0 <= n < m1.routes[a].nodes.len() && 0 <= p
            < m1.routes[a].nodes[n].len() implies {
        &&& (#[trigger] m1.routes[a].nodes[n][p]).0 < m1.routes[a].nodes.len()
        &&& transition_refers_within(m1.routes[a].nodes[n][p].1, m1)
    } by {
        assert(m1.routes[a].nodes[n][p] == m.routes[a].nodes[n][p]);
        lemma_refers_within_grows(m.routes[a].nodes[n][p].1, m, m1);
    }
    assert forall|a: int| 0 <= a < m1.routes.len() implies {
        &&& (#[trigger] m1.routes[a]).entry_node_index == 0 || m1.routes[a].entry_node_index
            < m1.routes[a].nodes.len()
        &&& m1.routes[a].exit_node_index == 0 || m1.routes[a].exit_node_index
            < m1.routes[a].nodes.len()
    } by {
        assert(m.routes[a].entry_node_index == 0 || m.routes[a].entry_node_index
            < m.routes[a].nodes.len());
    }
}

/// A path to a node of the route, with a transition that names what the
/// map has, keeps a map closed and its ports within.
pub proof fn lemma_closed_with_path(
    m: MapView,
    r: int,
    source: int,
    target: usize,
    transition: TransitionView,
)
    requires
        map_closed(m),
        ports_within(m),
        0 <= r < m.routes.len(),
        0 <= source < m.routes[r].nodes.len(),
        target < m.routes[r].nodes.len(),
        transition_refers_within(transition, m),
    ensures
        map_closed(map_with_path(m, r, source, target, transition)),
        ports_within(map_with_path(m, r, source, target, transition)),
{
    let m1 = map_with_path(m, r, source, target, transition);
    assert forall|a: int, n: int, p: int|
        0 <= a < m1.routes.len() && 0 <= n < m1.routes[a].nodes.len() && 0 <= p
            < m1.routes[a].nodes[n].len() implies {
        &&& (#[trigger] m1.routes[a].nodes[n][p]).0 < m1.routes[a].nodes.len()
        &&& transition_refers_within(m1.routes[a].nodes[n][p].1, m1)
    } by {
        if a == r && n == source && p == m.routes[a].nodes[n].len() {
            assert(m1.routes[a].nodes[n][p] == (target, transition));
        } else {
            assert(m1.routes[a].nodes[n][p] == m.routes[a].nodes[n][p]);
        }
    }
}

/// Ports among the nodes of the route keep a map closed and its ports
/// within.
pub proof fn lemma_closed_with_ports(m: MapView, r: int, entry: usize, exit: usize, fixed: bool)
    requires
        map_closed(m),
        ports_within(m),
        0 <= r < m.routes.len(),
        entry < m.routes[r].nodes.len(),
        exit < m.routes[r].nodes.len(),
    ensures
        map_closed(map_with_ports(m, r, entry, exit, fixed)),
        ports_within(map_with_ports(m, r, entry, exit, fixed)),
{
    let m1 = map_with_ports(m, r, entry, exit, fixed);
    assert forall|a: int, n: int, p: int|
        0 <= a < m1.routes.len() && 0 <= n < m1.routes[a].nodes.len() && 0 <= p
            < m1.routes[a].nodes[n].len() implies {
        &&& (#[trigger] m1.routes[a].nodes[n][p]).0 < m1.routes[a].nodes.len()
        &&& transition_refers_within(m1.routes[a].nodes[n][p].1, m1)
    } by {
        assert(m1.routes[a].nodes[n][p] == m.routes[a].nodes[n][p]);
    }
}

/// The index of the first capture group named `name`.
pub open spec fn spec_group_index_by_name(groups: Seq<Option<Seq<char>>>, name: Seq<char>) -> Option<
    usize,
> {
    if exists|i: int| 0 <= i < groups.len() && groups[i] == Some(name) {
        let i = choose|i: int|
            0 <= i < groups.len() && groups[i] == Some(name) && forall|j: int|
                0 <= j < i ==> groups[j] != Some(name);
        Some(i as usize)
    } else {
        None
    }
}

impl Route {
    /// Adds a node and returns its index.
    pub fn create_node(&mut self) -> (index: usize)
        ensures
            index == old(self)@.nodes.len(),
            final(self)@ == (RouteView { nodes: old(self)@.nodes.push(seq![]), ..old(self)@ }),
    {
        let index = self.nodes.len();
        let node = Node { paths: Vec::new() };
        self.nodes.push(node);
        proof {
            assert(node_view(node) =~= seq![]);
            assert(self@.nodes =~= old(self)@.nodes.push(seq![]));
        }
        index
    }

    /// Adds a path from node `source` to node `target`.
    pub fn create_path(&mut self, source: usize, target: usize, transition: Transition)
        requires
            source < old(self)@.nodes.len(),
        ensures
            final(self)@ == (RouteView {
                nodes: old(self)@.nodes.update(
                    source as int,
                    old(self)@.nodes[source as int].push((target, transition@)),
                ),
                ..old(self)@
            }),
    {
        let ghost t = transition@;
        let path = Path { target_node_index: target, transition };
        self.nodes[source].paths.push(path);
        proof {
            assert(node_view(self.nodes@[source as int]) =~= old(self)@.nodes[source as int].push(
                (target, t),
            ));
            assert(self@.nodes =~= old(self)@.nodes.update(
                source as int,
                old(self)@.nodes[source as int].push((target, t)),
            ));
        }
    }
}

impl RouteMap {
    pub fn new() -> (map: Self)
        ensures
            map@ == empty_map(),
    {
        let map = RouteMap { routes: Vec::new(), capture_groups: Vec::new() };
        assert(map@.routes =~= seq![]);
        assert(map@.capture_groups =~= seq![]);
        map
    }

    /// Adds an empty route and returns its index.
    pub fn create_route(&mut self) -> (index: usize)
        ensures
            (index, final(self)@) == map_with_route(old(self)@),
    {
        let index = self.routes.len();
        let route = Route {
            nodes: Vec::new(),
            entry_node_index: 0,
            exit_node_index: 0,
            is_fixed_matching_begin_point: false,
        };
        self.routes.push(route);
        proof {
            assert(route_view(route).nodes =~= seq![]);
            assert(self@.routes =~= map_with_route(old(self)@).1.routes);
        }
        index
    }

    /// Adds a capture group and returns its index.
    pub fn create_capture_group(&mut self, name: Option<String>) -> (index: usize)
        ensures
            (index, final(self)@) == map_with_group(
                old(self)@,
                match name {
                    Some(n) => Some(n@),
                    None => None,
                },
            ),
    {
        let index = self.capture_groups.len();
        let group = CaptureGroup { name };
        self.capture_groups.push(group);
        proof {
            assert(self@.capture_groups =~= old(self)@.capture_groups.push(group_view(group)));
        }
        index
    }

    /// The index of the first capture group named `name`.
    pub fn get_capture_group_index_by_name(&self, name: &str) -> (index: Option<usize>)
        ensures
            index == spec_group_index_by_name(self@.capture_groups, name@),
            index matches Some(i) ==> i < self@.capture_groups.len(),
    {
        let mut i: usize = 0;
        while i < self.capture_groups.len()
            invariant
                i <= self.capture_groups@.len(),
                forall|j: int| 0 <= j < i ==> self@.capture_groups[j] != Some(name@),
            decreases self.capture_groups@.len() - i,
        {
            let found = match &self.capture_groups[i].name {
                Some(group_name) => crate::text::text_is(group_name, name),
                None => false,
            };
            if found {
                proof {
                    assert(self@.capture_groups[i as int] == Some(name@));
                    let c = choose|c: int|
                        0 <= c < self@.capture_groups.len() && self@.capture_groups[c] == Some(
                            name@,
                        ) && forall|j: int| 0 <= j < c ==> self@.capture_groups[j] != Some(name@);
                    assert(c == i);
                }
                return Some(i);
            }
            i = i + 1;
        }
        None
    }
}

} // verus!
