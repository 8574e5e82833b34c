//! The leak report of a process: how leaked blocks are classed, labelled
//! and grouped by the place in the program that allocated them.
//!
//! A frame of an allocation stack reads like `sym+0x12 [binary]`; the
//! symbolizer appends `  →  file:line` to the frames it resolved to a
//! source line.

use vstd::prelude::*;

use crate::text::{
    append_chars, append_vec, before_pattern, before_pattern_chars, chars_of, contains_sub,
    find_from, find_pattern, has_prefix, string_of, trim, trim_vec, vec_contains, vec_has_prefix,
};
use crate::units::{bytes_text, format_bytes};
use crate::text::{dec, dec_chars};

verus! {

/// How a leaked block is reachable from the program.
#[derive(Debug, Clone, Copy, PartialEq, Eq, Structural)]
pub enum BlockClass {
    DefinitelyLost,
    IndirectlyLost,
    PossiblyLost,
    StillReachable,
}

/// How severe a class is: definitely lost blocks most, reachable ones least.
pub open spec fn rank_of(c: BlockClass) -> u8 {
    match c {
        BlockClass::DefinitelyLost => 3,
        BlockClass::IndirectlyLost => 2,
        BlockClass::PossiblyLost => 1,
        BlockClass::StillReachable => 0,
    }
}

/// How severe a class is: definitely lost blocks most, reachable ones least.
pub fn class_rank(c: BlockClass) -> (r: u8)
    ensures
        r == rank_of(c),
{
    match c {
        BlockClass::DefinitelyLost => 3,
        BlockClass::IndirectlyLost => 2,
        BlockClass::PossiblyLost => 1,
        BlockClass::StillReachable => 0,
    }
}

/// The label of a class.
pub open spec fn label_of(c: BlockClass) -> Seq<char> {
    match c {
        BlockClass::DefinitelyLost => "definitely lost"@,
        BlockClass::IndirectlyLost => "indirectly lost"@,
        BlockClass::PossiblyLost => "possibly lost"@,
        BlockClass::StillReachable => "still reachable"@,
    }
}

/// The label of a class.
pub fn class_label(c: BlockClass) -> (r: &'static str)
    ensures
        r@ == label_of(c),
{
    match c {
        BlockClass::DefinitelyLost => "definitely lost",
        BlockClass::IndirectlyLost => "indirectly lost",
        BlockClass::PossiblyLost => "possibly lost",
        BlockClass::StillReachable => "still reachable",
    }
}

/// The style name of a class.
pub open spec fn slug_of(c: BlockClass) -> Seq<char> {
    match c {
        BlockClass::DefinitelyLost => "definitely"@,
        BlockClass::IndirectlyLost => "indirectly"@,
        BlockClass::PossiblyLost => "possibly"@,
        BlockClass::StillReachable => "reachable"@,
    }
}

/// The style name of a class.
pub fn class_slug(c: BlockClass) -> (r: &'static str)
    ensures
        r@ == slug_of(c),
{
    match c {
        BlockClass::DefinitelyLost => "definitely",
        BlockClass::IndirectlyLost => "indirectly",
        BlockClass::PossiblyLost => "possibly",
        BlockClass::StillReachable => "reachable",
    }
}

/// The arrow the symbolizer puts before a resolved source line.
pub open spec fn arrow() -> Seq<char> {
    seq!['\u{2192}']
}

/// The texts of a stack of frames.
pub open spec fn frames(stack: Seq<String>) -> Seq<Seq<char>> {
    stack.map_values(|f: String| f@)
}

/// The function name of a frame: the part before the arrow, before any
/// `+offset` and before any ` [object]`, trimmed; `None` for an empty name
/// or a bare address.
pub open spec fn symbol_of(frame: Seq<char>) -> Option<Seq<char>> {
    let head = trim(before_pattern(frame, arrow()));
    if head.len() == 0 || has_prefix(head, "0x"@) {
        None
    } else {
        let name = trim(before_pattern(before_pattern(head, seq!['+']), " ["@));
        if name.len() == 0 {
            None
        } else {
            Some(name)
        }
    }
}

/// The resolved source line of a frame: the trimmed text after its first
/// arrow, unless empty or in the C library.
pub open spec fn site_of(frame: Seq<char>) -> Option<Seq<char>> {
    let k = find_from(frame, arrow(), 0);
    if k >= frame.len() {
        None
    } else {
        let after = trim(frame.skip(k + 1));
        if after.len() == 0 || contains_sub(after, "libc"@) {
            None
        } else {
            Some(after)
        }
    }
}

/// The first resolved source line of a stack.
pub open spec fn first_site(stack: Seq<Seq<char>>) -> Option<Seq<char>>
    decreases stack.len(),
{
    if stack.len() == 0 {
        None
    } else {
        match site_of(stack[0]) {
            Some(s) => Some(s),
            None => first_site(stack.drop_first()),
        }
    }
}

/// The first function name of a stack outside the C library.
pub open spec fn first_symbol(stack: Seq<Seq<char>>) -> Option<Seq<char>>
    decreases stack.len(),
{
    if stack.len() == 0 {
        None
    } else if !contains_sub(stack[0], "libc"@) && symbol_of(stack[0]) is Some {
        symbol_of(stack[0])
    } else {
        first_symbol(stack.drop_first())
    }
}

/// The key a leaked block is grouped under: the innermost resolved source
/// line, else the innermost function name outside the C library, else none.
pub open spec fn group_key_of(stack: Seq<Seq<char>>) -> Option<Seq<char>> {
    match first_site(stack) {
        Some(s) => Some(s),
        None => first_symbol(stack),
    }
}

/// A frame is not a bare address.
pub open spec fn is_symbolic(f: Seq<char>) -> bool {
    !has_prefix(f, "0x"@)
}

/// A frame worth showing first: symbolic and outside the C library.
pub open spec fn is_user_frame(f: Seq<char>) -> bool {
    is_symbolic(f) && !contains_sub(f, "libc"@)
}

/// The first frame of a stack that is symbolic and outside the C library.
pub open spec fn first_user_frame(stack: Seq<Seq<char>>) -> Option<Seq<char>>
    decreases stack.len(),
{
    if stack.len() == 0 {
        None
    } else if is_user_frame(stack[0]) {
        Some(stack[0])
    } else {
        first_user_frame(stack.drop_first())
    }
}

/// The first symbolic frame of a stack.
pub open spec fn first_symbolic_frame(stack: Seq<Seq<char>>) -> Option<Seq<char>>
    decreases stack.len(),
{
    if stack.len() == 0 {
        None
    } else if is_symbolic(stack[0]) {
        Some(stack[0])
    } else {
        first_symbolic_frame(stack.drop_first())
    }
}

/// The frame shown for a block: the first symbolic frame outside the C
/// library, else the first symbolic frame, else the first frame, else
/// `(no stack)`.
pub open spec fn top_frame_of(stack: Seq<Seq<char>>) -> Seq<char> {
    match first_user_frame(stack) {
        Some(f) => f,
        None => match first_symbolic_frame(stack) {
            Some(f) => f,
            None => if stack.len() > 0 {
                stack[0]
            } else {
                "(no stack)"@
            },
        },
    }
}

/// The function name of a frame, if it has one.
pub fn frame_symbol(frame: &str) -> (r: Option<String>)
    ensures
        match r {
            Some(s) => symbol_of(frame@) == Some(s@),
            None => symbol_of(frame@) is None,
        },
{
    let f = chars_of(frame);
    let mut arrow_v: Vec<char> = Vec::new();
    arrow_v.push('\u{2192}');
    assert(arrow_v@ =~= arrow());
    let before = before_pattern_chars(&f, &arrow_v);
    let head = trim_vec(&before);
    let hex = chars_of("0x");
    if head.len() == 0 || vec_has_prefix(&head, &hex) {
        return None;
    }
    let mut plus: Vec<char> = Vec::new();
    plus.push('+');
    assert(plus@ =~= seq!['+']);
    let a = before_pattern_chars(&head, &plus);
    let obj = chars_of(" [");
    let b = before_pattern_chars(&a, &obj);
    let name = trim_vec(&b);
    if name.len() == 0 {
        return None;
    }
    Some(string_of(&name))
}

/// The resolved source line of a frame, if it has one outside the C library.
fn frame_site(frame: &String) -> (r: Option<String>)
    ensures
        match r {
            Some(s) => site_of(frame@) == Some(s@),
            None => site_of(frame@) is None,
        },
{
    let f = chars_of(frame.as_str());
    let mut arrow_v: Vec<char> = Vec::new();
    arrow_v.push('\u{2192}');
    assert(arrow_v@ =~= arrow());
    let k = find_pattern(&f, &arrow_v);
    if k >= f.len() {
        return None;
    }
    let mut rest: Vec<char> = Vec::new();
    let mut i: usize = k + 1;
    while i < f.len()
        invariant
            k < f@.len(),
            k + 1 <= i <= f@.len(),
            rest@ == f@.subrange(k + 1, i as int),
        decreases f@.len() - i,
    {
        rest.push(f[i]);
        i = i + 1;
        assert(rest@ =~= f@.subrange(k + 1, i as int));
    }
    assert(rest@ =~= f@.skip(k + 1));
    let after = trim_vec(&rest);
    let libc = chars_of("libc");
    if after.len() == 0 || vec_contains(&after, &libc) {
        return None;
    }
    Some(string_of(&after))
}

/// The key a leaked block is grouped under.
pub fn group_key(stack: &Vec<String>) -> (r: Option<String>)
    ensures
        match r {
            Some(s) => group_key_of(frames(stack@)) == Some(s@),
            None => group_key_of(frames(stack@)) is None,
        },
{
    let ghost fs = frames(stack@);
    let mut i: usize = 0;
    assert(fs.skip(0) =~= fs);
    while i < stack.len()
        invariant
            fs == frames(stack@),
            i <= stack@.len(),
            first_site(fs) == first_site(fs.skip(i as int)),
        decreases stack@.len() - i,
    {
        proof {
            assert(fs.skip(i as int)[0] == stack@[i as int]@);
            assert(fs.skip(i as int).drop_first() =~= fs.skip(i + 1));
        }
        match frame_site(&stack[i]) {
            Some(s) => {
                return Some(s);
            },
            None => {},
        }
        i = i + 1;
    }
    assert(fs.skip(i as int) =~= Seq::<Seq<char>>::empty());
    let libc = chars_of("libc");
    let mut j: usize = 0;
    while j < stack.len()
        invariant
            fs == frames(stack@),
            j <= stack@.len(),
            libc@ == "libc"@,
            first_site(fs) is None,
            first_symbol(fs) == first_symbol(fs.skip(j as int)),
        decreases stack@.len() - j,
    {
        proof {
            assert(fs.skip(j as int)[0] == stack@[j as int]@);
            assert(fs.skip(j as int).drop_first() =~= fs.skip(j + 1));
        }
        let f = chars_of(stack[j].as_str());
        if !vec_contains(&f, &libc) {
            match frame_symbol(stack[j].as_str()) {
                Some(s) => {
                    return Some(s);
                },
                None => {},
            }
        }
        j = j + 1;
    }
    assert(fs.skip(j as int) =~= Seq::<Seq<char>>::empty());
    None
}

/// The frame shown for a block of the report.
pub fn top_frame(stack: &Vec<String>) -> (r: String)
    ensures
        r@ == top_frame_of(frames(stack@)),
{
    let ghost fs = frames(stack@);
    let hex = chars_of("0x");
    let libc = chars_of("libc");
    let mut i: usize = 0;
    assert(fs.skip(0) =~= fs);
    while i < stack.len()
        invariant
            fs == frames(stack@),
            hex@ == "0x"@,
            libc@ == "libc"@,
            i <= stack@.len(),
            first_user_frame(fs) == first_user_frame(fs.skip(i as int)),
        decreases stack@.len() - i,
    {
        proof {
            assert(fs.skip(i as int)[0] == stack@[i as int]@);
            assert(fs.skip(i as int).drop_first() =~= fs.skip(i + 1));
        }
        let f = chars_of(stack[i].as_str());
        if !vec_has_prefix(&f, &hex) && !vec_contains(&f, &libc) {
            return stack[i].clone();
        }
        i = i + 1;
    }
    assert(fs.skip(i as int) =~= Seq::<Seq<char>>::empty());
    let mut j: usize = 0;
    while j < stack.len()
        invariant
            fs == frames(stack@),
            hex@ == "0x"@,
            j <= stack@.len(),
            first_user_frame(fs) is None,
            first_symbolic_frame(fs) == first_symbolic_frame(fs.skip(j as int)),
        decreases stack@.len() - j,
    {
        proof {
            assert(fs.skip(j as int)[0] == stack@[j as int]@);
            assert(fs.skip(j as int).drop_first() =~= fs.skip(j + 1));
        }
        let f = chars_of(stack[j].as_str());
        if !vec_has_prefix(&f, &hex) {
            return stack[j].clone();
        }
        j = j + 1;
    }
    assert(fs.skip(j as int) =~= Seq::<Seq<char>>::empty());
    if stack.len() > 0 {
        return stack[0].clone();
    }
    String::from_str("(no stack)")
}

/// Blocks and bytes of one class of a reachability report.
#[derive(Debug, Clone, Copy, PartialEq, Eq, Structural)]
pub struct LossTotals {
    pub block_count: u64,
    pub total_bytes: u64,
}

/// The lost blocks of a reachability report, by class.
#[derive(Debug, Clone, Copy, PartialEq, Eq, Structural)]
pub struct ReachabilitySummary {
    pub definitely_lost: LossTotals,
    pub indirectly_lost: LossTotals,
    pub possibly_lost: LossTotals,
}

/// The verdict of an allocation scan and the bytes it found outstanding.
#[derive(Debug, Clone)]
pub struct AllocationSummary {
    pub verdict: String,
    pub total_outstanding_bytes: u64,
}

/// The one-line summary of the most informative scan available: the
/// reachability report if there is one, else the allocation report.
pub open spec fn summary_line_of(
    deep: Option<AllocationSummary>,
    reach: Option<ReachabilitySummary>,
) -> Option<Seq<char>> {
    match reach {
        Some(r) => {
            let bytes = r.definitely_lost.total_bytes + r.indirectly_lost.total_bytes
                + r.possibly_lost.total_bytes;
            let count = r.definitely_lost.block_count + r.indirectly_lost.block_count
                + r.possibly_lost.block_count;
            Some(
                "reachability: "@ + dec(count as nat) + " blocks lost \u{b7} "@ + bytes_text(
                    bytes as u64,
                ),
            )
        },
        None => match deep {
            Some(d) => Some(
                "allocation: "@ + d.verdict@ + " \u{b7} "@ + bytes_text(d.total_outstanding_bytes)
                    + " outstanding"@,
            ),
            None => None,
        },
    }
}

/// The byte and block totals of a reachability report fit in 64 bits.
pub open spec fn totals_fit(reach: Option<ReachabilitySummary>) -> bool {
    match reach {
        Some(r) => {
            &&& r.definitely_lost.total_bytes + r.indirectly_lost.total_bytes
                + r.possibly_lost.total_bytes <= u64::MAX
            &&& r.definitely_lost.block_count + r.indirectly_lost.block_count
                + r.possibly_lost.block_count <= u64::MAX
        },
        None => true,
    }
}

/// The one-line summary of the most informative scan available.
pub fn analysis_summary_line(
    deep: Option<&AllocationSummary>,
    reach: Option<&ReachabilitySummary>,
) -> (r: Option<String>)
    requires
        totals_fit(
            match reach {
                Some(x) => Some(*x),
                None => None,
            },
        ),
    ensures
        match r {
            Some(t) => summary_line_of(
                match deep {
                    Some(x) => Some(*x),
                    None => None,
                },
                match reach {
                    Some(x) => Some(*x),
                    None => None,
                },
            ) == Some(t@),
            None => summary_line_of(
                match deep {
                    Some(x) => Some(*x),
                    None => None,
                },
                match reach {
                    Some(x) => Some(*x),
                    None => None,
                },
            ) is None,
        },
{
    if let Some(rep) = reach {
        let total = rep.definitely_lost.total_bytes + rep.indirectly_lost.total_bytes
            + rep.possibly_lost.total_bytes;
        let count = rep.definitely_lost.block_count + rep.indirectly_lost.block_count
            + rep.possibly_lost.block_count;
        let mut out: Vec<char> = Vec::new();
        append_chars(&mut out, "reachability: ");
        let c = dec_chars(count);
        append_vec(&mut out, &c);
        append_chars(&mut out, " blocks lost \u{b7} ");
        let b = format_bytes(total);
        let bc = chars_of(b.as_str());
        append_vec(&mut out, &bc);
        return Some(string_of(&out));
    }
    if let Some(d) = deep {
        let mut out: Vec<char> = Vec::new();
        append_chars(&mut out, "allocation: ");
        let v = chars_of(d.verdict.as_str());
        append_vec(&mut out, &v);
        append_chars(&mut out, " \u{b7} ");
        let b = format_bytes(d.total_outstanding_bytes);
        let bc = chars_of(b.as_str());
        append_vec(&mut out, &bc);
        append_chars(&mut out, " outstanding");
        return Some(string_of(&out));
    }
    None
}

} // verus!
