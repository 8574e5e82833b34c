//! The text lines of the one-shot and worker modes.

use vstd::prelude::*;

use crate::dto::{Pid, ProcessHierarchyNodeDTO, ProcessNetworkSampleDTO};
use crate::text::{append_chars, append_vec, dec, dec_chars, string_of};
use crate::tree::{dto_forest_view, dto_view, lemma_dto_forest_view, TreeView};

verus! {

/// `n` copies of two spaces.
pub open spec fn indent(n: nat) -> Seq<char>
    decreases n,
{
    if n == 0 {
        Seq::empty()
    } else {
        indent((n - 1) as nat) + "  "@
    }
}

/// The line of one node of the hierarchy at a depth.
pub open spec fn node_line(t: TreeView, depth: nat) -> Seq<char> {
    indent(depth) + "pid="@ + dec(t.pid as nat) + " ppid="@ + dec(t.ppid as nat) + " name="@
        + t.name
}

/// The lines of a tree: its root, then its children one level deeper.
pub open spec fn tree_lines(t: TreeView, depth: nat) -> Seq<Seq<char>>
    decreases t,
{
    seq![node_line(t, depth)] + forest_lines(t.children, depth + 1)
}

/// The lines of a sequence of trees at a depth.
pub open spec fn forest_lines(s: Seq<TreeView>, depth: nat) -> Seq<Seq<char>>
    decreases s,
{
    if s.len() == 0 {
        Seq::empty()
    } else {
        tree_lines(s[0], depth) + forest_lines(s.subrange(1, s.len() as int), depth)
    }
}

/// The number of levels of a tree.
pub open spec fn tree_height(t: TreeView) -> nat
    decreases t,
{
    1 + forest_height(t.children)
}

/// The number of levels of the highest tree of a sequence.
pub open spec fn forest_height(s: Seq<TreeView>) -> nat
    decreases s,
{
    if s.len() == 0 {
        0
    } else {
        let a = tree_height(s[0]);
        let b = forest_height(s.subrange(1, s.len() as int));
        if a >= b {
            a
        } else {
            b
        }
    }
}

/// The texts of a sequence of strings.
pub open spec fn line_texts(v: Seq<String>) -> Seq<Seq<char>> {
    v.map_values(|l: String| l@)
}

/// Two spaces per level of depth.
fn indent_chars(depth: usize) -> (r: Vec<char>)
    ensures
        r@ == indent(depth as nat),
{
    let mut r: Vec<char> = Vec::new();
    let mut i: usize = 0;
    while i < depth
        invariant
            i <= depth,
            r@ == indent(i as nat),
        decreases depth - i,
    {
        append_chars(&mut r, "  ");
        i = i + 1;
    }
    r
}

proof fn lemma_forest_height_skip(s: Seq<TreeView>, i: int)
    requires
        0 <= i < s.len(),
    ensures
        tree_height(s[i]) <= forest_height(s),
        forest_height(s.subrange(i + 1, s.len() as int)) <= forest_height(s),
    decreases s.len(),
{
    let t = s.subrange(1, s.len() as int);
    if i > 0 {
        lemma_forest_height_skip(t, i - 1);
        assert(t[i - 1] == s[i]);
        assert(t.subrange(i, t.len() as int) =~= s.subrange(i + 1, s.len() as int));
    } else {
        assert(t =~= s.subrange(1, s.len() as int));
    }
}

/// Appends the lines of the trees at a depth, each root then its children
/// indented one level more.
pub fn collect_tree_lines(nodes: &Vec<ProcessHierarchyNodeDTO>, depth: usize, lines: &mut Vec<String>)
    requires
        depth + forest_height(dto_forest_view(nodes@)) <= usize::MAX,
    ensures
        line_texts(final(lines)@) == line_texts(old(lines)@) + forest_lines(
            dto_forest_view(nodes@),
            depth as nat,
        ),
    decreases nodes@,
{
    let ghost fv = dto_forest_view(nodes@);
    let ghost start = line_texts(lines@);
    proof {
        lemma_dto_forest_view(nodes@);
    }
    let pad = indent_chars(depth);
    let mut i: usize = 0;
    assert(fv.subrange(0, fv.len() as int) =~= fv);
    assert(line_texts(lines@) + forest_lines(fv, depth as nat) =~= start + forest_lines(
        fv,
        depth as nat,
    ));
    while i < nodes.len()
        invariant
            fv == dto_forest_view(nodes@),
            fv.len() == nodes@.len(),
            i <= nodes@.len(),
            depth + forest_height(fv) <= usize::MAX,
            pad@ == indent(depth as nat),
            line_texts(lines@) + forest_lines(fv.subrange(i as int, fv.len() as int), depth as nat)
                == start + forest_lines(fv, depth as nat),
        decreases nodes@.len() - i,
    {
        let ghost rest = fv.subrange(i as int, fv.len() as int);
        let ghost tail = fv.subrange(i + 1, fv.len() as int);
        let node = &nodes[i];
        proof {
            lemma_dto_forest_view(nodes@);
            assert(rest[0] == dto_view(nodes@[i as int]));
            assert(rest.subrange(1, rest.len() as int) =~= tail);
            lemma_forest_height_skip(fv, i as int);
            assert(tree_height(dto_view(*node)) == 1 + forest_height(dto_forest_view(
                node.children@,
            )));
            assert(decreases_to!(nodes@ => nodes@[i as int].children@));
        }
        let mut line: Vec<char> = Vec::new();
        append_vec(&mut line, &pad);
        append_chars(&mut line, "pid=");
        let p = dec_chars(node.pid as u64);
        append_vec(&mut line, &p);
        append_chars(&mut line, " ppid=");
        let pp = dec_chars(node.ppid as u64);
        append_vec(&mut line, &pp);
        append_chars(&mut line, " name=");
        let nm = crate::text::chars_of(node.name.as_str());
        append_vec(&mut line, &nm);
        assert(line@ =~= node_line(dto_view(*node), depth as nat));
        let ghost before = line_texts(lines@);
        lines.push(string_of(&line));
        assert(line_texts(lines@) =~= before.push(node_line(dto_view(*node), depth as nat)));
        collect_tree_lines(&node.children, depth + 1, lines);
        proof {
            let t = dto_view(*node);
            assert(forest_lines(rest, depth as nat) == tree_lines(t, depth as nat) + forest_lines(
                tail,
                depth as nat,
            ));
            assert(tree_lines(t, depth as nat) == seq![node_line(t, depth as nat)] + forest_lines(
                t.children,
                (depth + 1) as nat,
            ));
            assert(line_texts(lines@) + forest_lines(tail, depth as nat) =~= before + forest_lines(
                rest,
                depth as nat,
            ));
        }
        i = i + 1;
    }
    proof {
        assert(fv.subrange(i as int, fv.len() as int) =~= Seq::<TreeView>::empty());
        assert(line_texts(lines@) + Seq::<Seq<char>>::empty() =~= line_texts(lines@));
    }
}

/// The line of one process's socket statistics.
pub open spec fn network_line_text(s: ProcessNetworkSampleDTO) -> Seq<char> {
    "pid="@ + dec(s.pid as nat) + " name="@ + s.name@ + " tcp_open="@ + dec(s.tcp_open as nat)
        + " tcp_established="@ + dec(s.tcp_established as nat) + " tcp_listen="@ + dec(
        s.tcp_listen as nat,
    ) + " udp_open="@ + dec(s.udp_open as nat) + " sockets_total="@ + dec(s.total_sockets as nat)
}

/// The line of one process's socket statistics.
pub fn network_line(s: &ProcessNetworkSampleDTO) -> (r: String)
    ensures
        r@ == network_line_text(*s),
{
    let mut line: Vec<char> = Vec::new();
    append_chars(&mut line, "pid=");
    let v = dec_chars(s.pid as u64);
    append_vec(&mut line, &v);
    append_chars(&mut line, " name=");
    let v = crate::text::chars_of(s.name.as_str());
    append_vec(&mut line, &v);
    append_chars(&mut line, " tcp_open=");
    let v = dec_chars(s.tcp_open as u64);
    append_vec(&mut line, &v);
    append_chars(&mut line, " tcp_established=");
    let v = dec_chars(s.tcp_established as u64);
    append_vec(&mut line, &v);
    append_chars(&mut line, " tcp_listen=");
    let v = dec_chars(s.tcp_listen as u64);
    append_vec(&mut line, &v);
    append_chars(&mut line, " udp_open=");
    let v = dec_chars(s.udp_open as u64);
    append_vec(&mut line, &v);
    append_chars(&mut line, " sockets_total=");
    let v = dec_chars(s.total_sockets as u64);
    append_vec(&mut line, &v);
    assert(line@ =~= network_line_text(*s));
    string_of(&line)
}

/// A sample passes the filter when there is none or it has the filter's pid.
pub open spec fn passes_pid_filter(pid: Pid, filter: Option<u32>) -> bool {
    match filter {
        Some(p) => pid == p,
        None => true,
    }
}

/// The lines of the samples that pass the pid filter, in order.
pub open spec fn network_lines_text(s: Seq<ProcessNetworkSampleDTO>, filter: Option<u32>) -> Seq<
    Seq<char>,
>
    decreases s.len(),
{
    if s.len() == 0 {
        Seq::empty()
    } else {
        let rest = network_lines_text(s.drop_last(), filter);
        if passes_pid_filter(s.last().pid, filter) {
            rest.push(network_line_text(s.last()))
        } else {
            rest
        }
    }
}

/// The lines of the samples that pass the pid filter, in order.
pub fn network_lines(samples: &Vec<ProcessNetworkSampleDTO>, pid_filter: Option<u32>) -> (r: Vec<
    String,
>)
    ensures
        line_texts(r@) == network_lines_text(samples@, pid_filter),
{
    let mut out: Vec<String> = Vec::new();
    let mut i: usize = 0;
    while i < samples.len()
        invariant
            i <= samples@.len(),
            line_texts(out@) == network_lines_text(samples@.take(i as int), pid_filter),
        decreases samples@.len() - i,
    {
        let ghost before = line_texts(out@);
        let keep = match pid_filter {
            Some(p) => samples[i].pid == p,
            None => true,
        };
        if keep {
            let l = network_line(&samples[i]);
            out.push(l);
        }
        proof {
            assert(samples@.take(i + 1).drop_last() =~= samples@.take(i as int));
            assert(samples@.take(i + 1).last() == samples@[i as int]);
            if keep {
                assert(line_texts(out@) =~= before.push(network_line_text(samples@[i as int])));
            } else {
                assert(line_texts(out@) =~= before);
            }
        }
        i = i + 1;
    }
    assert(samples@.take(samples@.len() as int) =~= samples@);
    out
}

/// Debug text of a list of pids, as `{:?}` writes a `Vec<u32>`: `[1, 2, 3]`.
pub open spec fn pid_list_text(s: Seq<Pid>) -> Seq<char>
    decreases s.len(),
{
    if s.len() == 0 {
        "[]"@
    } else {
        "["@ + pid_items(s) + "]"@
    }
}

/// The items of a non-empty list of pids joined by `, `.
pub open spec fn pid_items(s: Seq<Pid>) -> Seq<char>
    decreases s.len(),
{
    if s.len() <= 1 {
        if s.len() == 1 {
            dec(s[0] as nat)
        } else {
            Seq::empty()
        }
    } else {
        pid_items(s.drop_last()) + ", "@ + dec(s.last() as nat)
    }
}

/// The roots line of the hierarchy output, `roots=[..]`.
pub fn roots_line(roots: &Vec<Pid>) -> (r: String)
    ensures
        r@ == "roots="@ + pid_list_text(roots@),
{
    let mut line: Vec<char> = Vec::new();
    append_chars(&mut line, "roots=[");
    let ghost head = line@;
    let mut i: usize = 0;
    while i < roots.len()
        invariant
            i <= roots@.len(),
            head == "roots=["@,
            line@ == head + pid_items(roots@.take(i as int)),
        decreases roots@.len() - i,
    {
        if i > 0 {
            append_chars(&mut line, ", ");
        }
        let v = dec_chars(roots[i] as u64);
        append_vec(&mut line, &v);
        proof {
            let t = roots@.take(i + 1);
            assert(t.drop_last() =~= roots@.take(i as int));
            assert(t.last() == roots@[i as int]);
            if i == 0 {
                assert(roots@.take(0) =~= Seq::<Pid>::empty());
                assert(t.len() == 1);
                assert(pid_items(t) == dec(t[0] as nat));
            }
            assert(line@ =~= head + pid_items(t));
        }
        i = i + 1;
    }
    append_chars(&mut line, "]");
    proof {
        assert(roots@.take(roots@.len() as int) =~= roots@);
        reveal_strlit("roots=[");
        reveal_strlit("roots=");
        reveal_strlit("[");
        reveal_strlit("]");
        reveal_strlit("[]");
        if roots@.len() == 0 {
            assert(pid_items(roots@) =~= Seq::<char>::empty());
        }
        assert(line@ =~= "roots="@ + pid_list_text(roots@));
    }
    string_of(&line)
}

} // verus!
