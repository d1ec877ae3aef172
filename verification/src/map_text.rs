use vstd::prelude::*;

use crate::ast_text::{char_text, string_text};
use crate::object_file::{
    CharSetItem, MapView, Path, RepetitionType, Route, RouteMap, RouteView, Transition,
    TransitionView, node_view, path_view, };
use crate::text::{decimal, push_decimal, push_str};

verus! {

/// The bounds of a repetition in brackets: `[n]`, `[n..]` or `[m..n]`.
pub open spec fn repetition_text(repetition: RepetitionType) -> Seq<char> {
    match repetition {
        RepetitionType::Repeat(n) => "["@ + decimal(n as nat) + "]"@,
        RepetitionType::RepeatFrom(n) => "["@ + decimal(n as nat) + "..]"@,
        RepetitionType::RepeatRange(m, n) => "["@ + decimal(m as nat) + ".."@ + decimal(n as nat)
            + "]"@,
    }
}

/// An item of a charset: a quoted character or a range of them.
pub open spec fn item_text(item: CharSetItem) -> Seq<char> {
    match item {
        CharSetItem::Char(c) => char_text(c),
        CharSetItem::Range(start, end) => char_text(start) + ".."@ + char_text(end),
    }
}

/// The first `n` items of a charset, separated by commas.
pub open spec fn items_text(items: Seq<CharSetItem>, n: int) -> Seq<char>
    decreases n,
{
    if n <= 0 || n > items.len() {
        seq![]
    } else if n == 1 {
        item_text(items[0])
    } else {
        items_text(items, n - 1) + ", "@ + item_text(items[n - 1])
    }
}

/// A transition in words.
pub open spec fn transition_text(transition: TransitionView) -> Seq<char> {
    match transition {
        TransitionView::Jump => "Jump"@,
        TransitionView::Char(c) => "Char "@ + char_text(c),
        TransitionView::String(s) => "String "@ + string_text(s),
        TransitionView::AnyChar => "Any char"@,
        TransitionView::CharSet(items, negative) => "Charset "@ + (if negative {
            "!"@
        } else {
            seq![]
        }) + "["@ + items_text(items, items.len() as int) + "]"@,
        TransitionView::CaptureStart(i) => "Capture start {"@ + decimal(i as nat) + "}"@,
        TransitionView::CaptureEnd(i) => "Capture end {"@ + decimal(i as nat) + "}"@,
        TransitionView::BackReference(i) => "Back reference {"@ + decimal(i as nat) + "}"@,
        TransitionView::LineBoundaryAssertion(is_end) => "Line boundary assertion "@ + (if is_end {
            "is_end()"@
        } else {
            "is_start()"@
        }),
        TransitionView::WordBoundaryAssertion(negative) => "Word boundary assertion "@ + (
        if negative {
            "is_not_bound()"@
        } else {
            "is_bound()"@
        }),
        TransitionView::CounterReset => "Counter reset"@,
        TransitionView::CounterSave => "Counter save"@,
        TransitionView::CounterInc => "Counter inc"@,
        TransitionView::RepetitionForward(r) => "Repetition forward "@ + repetition_text(r),
        TransitionView::RepetitionBack(r) => "Repetition back "@ + repetition_text(r),
        TransitionView::LookAheadAssertion(route, negative) => "Look ahead "@ + (if negative {
            "negative "@
        } else {
            seq![]
        }) + "$"@ + decimal(route as nat),
        TransitionView::LookBehindAssertion(route, negative, length) => "Look behind "@ + (
        if negative {
            "negative "@
        } else {
            seq![]
        }) + "$"@ + decimal(route as nat) + ", match length "@ + decimal(length as nat),
    }
}

/// The line of a path: its target and its transition.
pub open spec fn path_line(path: (usize, TransitionView)) -> Seq<char> {
    "  -> "@ + decimal(path.0 as nat) + ", "@ + transition_text(path.1)
}

/// The lines of the first `n` paths.
pub open spec fn paths_lines(paths: Seq<(usize, TransitionView)>, n: int) -> Seq<Seq<char>>
    decreases n,
{
    if n <= 0 || n > paths.len() {
        seq![]
    } else {
        paths_lines(paths, n - 1).push(path_line(paths[n - 1]))
    }
}

/// The line that heads node `i`: `>` for the entry, `<` for the exit, `-`
/// for the others.
pub open spec fn node_header(route: RouteView, i: int) -> Seq<char> {
    (if i == route.entry_node_index {
        "> "@
    } else if i == route.exit_node_index {
        "< "@
    } else {
        "- "@
    }) + decimal(i as nat)
}

/// The lines of the first `n` nodes of a route, each node with its paths.
pub open spec fn nodes_lines(route: RouteView, n: int) -> Seq<Seq<char>>
    decreases n,
{
    if n <= 0 || n > route.nodes.len() {
        seq![]
    } else {
        nodes_lines(route, n - 1).push(node_header(route, n - 1)) + paths_lines(
            route.nodes[n - 1],
            route.nodes[n - 1].len() as int,
        )
    }
}

/// The lines of route `r`, headed by its index when the map has several
/// routes.
pub open spec fn route_lines(m: MapView, r: int) -> Seq<Seq<char>> {
    (if m.routes.len() > 1 {
        seq!["= $"@ + decimal(r as nat)]
    } else {
        seq![]
    }) + nodes_lines(m.routes[r], m.routes[r].nodes.len() as int)
}

/// The lines of the first `n` routes.
pub open spec fn routes_lines(m: MapView, n: int) -> Seq<Seq<char>>
    decreases n,
{
    if n <= 0 || n > m.routes.len() {
        seq![]
    } else {
        routes_lines(m, n - 1) + route_lines(m, n - 1)
    }
}

/// The line of capture group `i`, with its name when it has one.
pub open spec fn group_line(i: int, name: Option<Seq<char>>) -> Seq<char> {
    "# {"@ + decimal(i as nat) + "}"@ + match name {
        Some(n) => ", "@ + n,
        None => seq![],
    }
}

/// The lines of the first `n` capture groups.
pub open spec fn groups_lines(groups: Seq<Option<Seq<char>>>, n: int) -> Seq<Seq<char>>
    decreases n,
{
    if n <= 0 || n > groups.len() {
        seq![]
    } else {
        groups_lines(groups, n - 1).push(group_line(n - 1, groups[n - 1]))
    }
}

/// Lines joined by line breaks.
pub open spec fn join_lines(lines: Seq<Seq<char>>) -> Seq<char>
    decreases lines.len(),
{
    if lines.len() == 0 {
        seq![]
    } else if lines.len() == 1 {
        lines[0]
    } else {
        join_lines(lines.drop_last()) + "\n"@ + lines.last()
    }
}

/// The listing of a map: the routes with their nodes and paths, then the
/// capture groups, one item a line.
pub open spec fn debug_text(m: MapView) -> Seq<char> {
    join_lines(
        routes_lines(m, m.routes.len() as int) + groups_lines(
            m.capture_groups,
            m.capture_groups.len() as int,
        ),
    )
}

proof fn lemma_join_push(lines: Seq<Seq<char>>, line: Seq<char>)
    ensures
        join_lines(lines.push(line)) == if lines.len() == 0 {
            line
        } else {
            join_lines(lines) + "\n"@ + line
        },
{
    assert(lines.push(line).drop_last() =~= lines);
}

/// Starts a new line: a line break unless the text is empty.
fn start_line(out: &mut String, Ghost(lines): Ghost<Seq<Seq<char>>>, first: bool)
    requires
        old(out)@ == join_lines(lines),
        first == (lines.len() == 0),
    ensures
        final(out)@ == if lines.len() == 0 {
            seq![]
        } else {
            join_lines(lines) + "\n"@
        },
{
    if !first {
        push_str(out, "\n");
    }
}

fn write_repetition(out: &mut String, repetition: RepetitionType)
    ensures
        final(out)@ == old(out)@ + repetition_text(repetition),
{
    let ghost start = out@;
    match repetition {
        RepetitionType::Repeat(n) => {
            push_str(out, "[");
            push_decimal(out, n);
            push_str(out, "]");
        },
        RepetitionType::RepeatFrom(n) => {
            push_str(out, "[");
            push_decimal(out, n);
            push_str(out, "..]");
        },
        RepetitionType::RepeatRange(m, n) => {
            push_str(out, "[");
            push_decimal(out, m);
            push_str(out, "..");
            push_decimal(out, n);
            push_str(out, "]");
        },
    }
    assert(out@ =~= start + repetition_text(repetition));
}

fn write_item(out: &mut String, item: CharSetItem)
    ensures
        final(out)@ == old(out)@ + item_text(item),
{
    let ghost start = out@;
    match item {
        CharSetItem::Char(c) => crate::ast_text::write_char(out, c),
        CharSetItem::Range(a, b) => {
            crate::ast_text::write_char(out, a);
            push_str(out, "..");
            crate::ast_text::write_char(out, b);
        },
    }
    assert(out@ =~= start + item_text(item));
}

fn write_flag(out: &mut String, flag: bool, text: &str)
    ensures
        final(out)@ == old(out)@ + if flag {
            text@
        } else {
            seq![]
        },
{
    if flag {
        push_str(out, text);
    } else {
        assert(out@ =~= out@ + seq![]);
    }
}

fn write_transition(out: &mut String, transition: &Transition)
    ensures
        final(out)@ == old(out)@ + transition_text(transition@),
{
    let ghost start = out@;
    match transition {
        Transition::Jump => push_str(out, "Jump"),
        Transition::Char(c) => {
            push_str(out, "Char ");
            crate::ast_text::write_char(out, *c);
        },
        Transition::String(s) => {
            push_str(out, "String ");
            crate::ast_text::write_string(out, s);
        },
        Transition::AnyChar => push_str(out, "Any char"),
        Transition::CharSet(items, negative) => {
            push_str(out, "Charset ");
            write_flag(out, *negative, "!");
            push_str(out, "[");
            let ghost opened = out@;
            let mut i: usize = 0;
            while i < items.len()
                invariant
                    i <= items@.len(),
                    out@ == opened + items_text(items@, i as int),
                decreases items@.len() - i,
            {
                if i > 0 {
                    push_str(out, ", ");
                }
                write_item(out, items[i]);
                proof {
                    assert(out@ =~= opened + items_text(items@, i + 1));
                }
                i = i + 1;
            }
            push_str(out, "]");
        },
        Transition::CaptureStart(i) => {
            push_str(out, "Capture start {");
            push_decimal(out, *i);
            push_str(out, "}");
        },
        Transition::CaptureEnd(i) => {
            push_str(out, "Capture end {");
            push_decimal(out, *i);
            push_str(out, "}");
        },
        Transition::BackReference(i) => {
            push_str(out, "Back reference {");
            push_decimal(out, *i);
            push_str(out, "}");
        },
        Transition::LineBoundaryAssertion(is_end) => {
            push_str(out, "Line boundary assertion ");
            if *is_end {
                push_str(out, "is_end()");
            } else {
                push_str(out, "is_start()");
            }
        },
        Transition::WordBoundaryAssertion(negative) => {
            push_str(out, "Word boundary assertion ");
            if *negative {
                push_str(out, "is_not_bound()");
            } else {
                push_str(out, "is_bound()");
            }
        },
        Transition::CounterReset => push_str(out, "Counter reset"),
        Transition::CounterSave => push_str(out, "Counter save"),
        Transition::CounterInc => push_str(out, "Counter inc"),
        Transition::RepetitionForward(r) => {
            push_str(out, "Repetition forward ");
            write_repetition(out, *r);
        },
        Transition::RepetitionBack(r) => {
            push_str(out, "Repetition back ");
            write_repetition(out, *r);
        },
        Transition::LookAheadAssertion(route, negative) => {
            push_str(out, "Look ahead ");
            write_flag(out, *negative, "negative ");
            push_str(out, "$");
            push_decimal(out, *route);
        },
        Transition::LookBehindAssertion(route, negative, length) => {
            push_str(out, "Look behind ");
            write_flag(out, *negative, "negative ");
            push_str(out, "$");
            push_decimal(out, *route);
            push_str(out, ", match length ");
            push_decimal(out, *length);
        },
    }
    assert(out@ =~= start + transition_text(transition@));
}


fn write_node_header(out: &mut String, route: &Route, index: usize)
    ensures
        final(out)@ == old(out)@ + node_header(route@, index as int),
{
    let ghost start = out@;
    if index == route.entry_node_index {
        push_str(out, "> ");
    } else if index == route.exit_node_index {
        push_str(out, "< ");
    } else {
        push_str(out, "- ");
    }
    push_decimal(out, index);
    assert(out@ =~= start + node_header(route@, index as int));
}

fn write_path_line(out: &mut String, path: &Path)
    ensures
        final(out)@ == old(out)@ + path_line(path_view(*path)),
{
    let ghost start = out@;
    push_str(out, "  -> ");
    push_decimal(out, path.target_node_index);
    push_str(out, ", ");
    write_transition(out, &path.transition);
    assert(out@ =~= start + path_line(path_view(*path)));
}

fn write_group_line(out: &mut String, index: usize, name: &Option<String>)
    ensures
        final(out)@ == old(out)@ + group_line(
            index as int,
            match name {
                Some(n) => Some(n@),
                None => None,
            },
        ),
{
    let ghost start = out@;
    push_str(out, "# {");
    push_decimal(out, index);
    push_str(out, "}");
    match name {
        Some(n) => {
            push_str(out, ", ");
            push_str(out, n.as_str());
        },
        None => {},
    }
    assert(out@ =~= start + group_line(
        index as int,
        match name {
            Some(n) => Some(n@),
            None => None,
        },
    ));
}

impl RouteMap {
    /// A listing of the map for inspection: each route (headed by `= $i`
    /// when there are several) with its nodes (`>` the entry, `<` the exit,
    /// `-` the others) and their paths, then the capture groups.
    pub fn get_debug_text(&self) -> (text: String)
        ensures
            text@ == debug_text(self@),
    {
        let ghost m = self@;
        let mut out = String::new();
        let ghost mut lines: Seq<Seq<char>> = seq![];
        let mut first = true;
        let multiple = self.routes.len() > 1;
        let mut ri: usize = 0;
        while ri < self.routes.len()
            invariant
                m == self@,
                ri <= self.routes@.len(),
                multiple == (m.routes.len() > 1),
                lines == routes_lines(m, ri as int),
                out@ == join_lines(lines),
                first == (lines.len() == 0),
            decreases self.routes@.len() - ri,
        {
            let route = &self.routes[ri];
            let ghost rv = m.routes[ri as int];
            assert(rv == route@);
            let ghost base = lines;
            if multiple {
                start_line(&mut out, Ghost(lines), first);
                push_str(&mut out, "= $");
                push_decimal(&mut out, ri);
                proof {
                    lemma_join_push(lines, "= $"@ + decimal(ri as nat));
                    lines = lines.push("= $"@ + decimal(ri as nat));
                }
                first = false;
            }
            let ghost headed = lines;
            proof {
                assert(headed =~= base + (if m.routes.len() > 1 {
                    seq!["= $"@ + decimal(ri as nat)]
                } else {
                    seq![]
                }) + nodes_lines(rv, 0));
            }
            let mut ni: usize = 0;
            while ni < route.nodes.len()
                invariant
                    m == self@,
                    ri < self.routes@.len(),
                    route == &self.routes@[ri as int],
                    rv == route@,
                    multiple == (m.routes.len() > 1),
                    base == routes_lines(m, ri as int),
                    ni <= route.nodes@.len(),
                    lines == base + (if m.routes.len() > 1 {
                        seq!["= $"@ + decimal(ri as nat)]
                    } else {
                        seq![]
                    }) + nodes_lines(rv, ni as int),
                    out@ == join_lines(lines),
                    first == (lines.len() == 0),
                decreases route.nodes@.len() - ni,
            {
                let node = &route.nodes[ni];
                let ghost paths = rv.nodes[ni as int];
                assert(paths == node_view(*node));
                start_line(&mut out, Ghost(lines), first);
                write_node_header(&mut out, route, ni);
                proof {
                    lemma_join_push(lines, node_header(rv, ni as int));
                    lines = lines.push(node_header(rv, ni as int));
                }
                first = false;
                let ghost noded = lines;
                let mut pi: usize = 0;
                while pi < node.paths.len()
                    invariant
                        node == &route.nodes@[ni as int],
                        paths == node_view(*node),
                        pi <= node.paths@.len(),
                        lines == noded + paths_lines(paths, pi as int),
                        lines.len() > 0,
                        out@ == join_lines(lines),
                        !first,
                    decreases node.paths@.len() - pi,
                {
                    let path = &node.paths[pi];
                    assert(paths[pi as int] == path_view(*path));
                    start_line(&mut out, Ghost(lines), first);
                    write_path_line(&mut out, path);
                    proof {
                        lemma_join_push(lines, path_line(path_view(*path)));
                        assert(lines.push(path_line(path_view(*path))) =~= noded + paths_lines(
                            paths,
                            pi + 1,
                        ));
                        lines = lines.push(path_line(path_view(*path)));
                    }
                    pi = pi + 1;
                }
                proof {
                    assert(lines =~= base + (if m.routes.len() > 1 {
                        seq!["= $"@ + decimal(ri as nat)]
                    } else {
                        seq![]
                    }) + nodes_lines(rv, ni + 1));
                }
                ni = ni + 1;
            }
            proof {
                assert(lines =~= routes_lines(m, ri + 1));
            }
            ri = ri + 1;
        }
        let ghost routed = lines;
        let mut gi: usize = 0;
        while gi < self.capture_groups.len()
            invariant
                m == self@,
                gi <= self.capture_groups@.len(),
                routed == routes_lines(m, m.routes.len() as int),
                lines == routed + groups_lines(m.capture_groups, gi as int),
                out@ == join_lines(lines),
                first == (lines.len() == 0),
            decreases self.capture_groups@.len() - gi,
        {
            let ghost line = group_line(gi as int, m.capture_groups[gi as int]);
            start_line(&mut out, Ghost(lines), first);
            write_group_line(&mut out, gi, &self.capture_groups[gi].name);
            proof {
                lemma_join_push(lines, line);
                assert(lines.push(line) =~= routed + groups_lines(m.capture_groups, gi + 1));
                lines = lines.push(line);
            }
            first = false;
            gi = gi + 1;
        }
        out
    }
}

} // verus!
