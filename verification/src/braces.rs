//! Brace matching and command-argument scanning over the UTF-8 bytes of a
//! LaTeX source.

use vstd::prelude::*;
use vstd::string::StringSliceAdditionalSpecFns;

verus! {

/// Position of the `}` that closes a group whose interior scan starts at
/// `i` with `depth` groups still open; backslash-escaped bytes are skipped.
pub open spec fn closing_brace_from(b: Seq<u8>, i: int, depth: nat) -> Option<int>
    decreases b.len() - i,
{
    if i < 0 || i >= b.len() || depth == 0 {
        None
    } else if b[i] == 0x5c {
        if i + 1 < b.len() {
            closing_brace_from(b, i + 2, depth)
        } else {
            None
        }
    } else if b[i] == 0x7b {
        closing_brace_from(b, i + 1, depth + 1)
    } else if b[i] == 0x7d {
        if depth == 1 {
            Some(i)
        } else {
            closing_brace_from(b, i + 1, (depth - 1) as nat)
        }
    } else {
        closing_brace_from(b, i + 1, depth)
    }
}

/// The braced group opening at `open`: its content range, if `open` holds
/// `{` and a matching `}` follows.
pub open spec fn braced_group(b: Seq<u8>, open: int) -> Option<(int, int)> {
    if 0 <= open < b.len() && b[open] == 0x7b {
        match closing_brace_from(b, open + 1, 1) {
            Some(close) => Some((open + 1, close)),
            None => None,
        }
    } else {
        None
    }
}

pub open spec fn is_blank(c: u8) -> bool {
    c == 0x20 || c == 0x09 || c == 0x0a
}

pub open spec fn is_alpha(c: u8) -> bool {
    (0x41 <= c && c <= 0x5a) || (0x61 <= c && c <= 0x7a)
}

/// First position at or after `i` that is not a space, tab or newline.
pub open spec fn skip_blanks(b: Seq<u8>, i: int) -> int
    decreases b.len() - i,
{
    if 0 <= i < b.len() && is_blank(b[i]) {
        skip_blanks(b, i + 1)
    } else {
        i
    }
}

/// The braced argument after a command name ending at `cmd_end`:
/// content range and the position after the closing brace.
pub open spec fn command_arg(b: Seq<u8>, cmd_end: int) -> Option<(int, int, int)> {
    match braced_group(b, skip_blanks(b, cmd_end)) {
        Some((cs, ce)) => Some((cs, ce, ce + 1)),
        None => None,
    }
}

/// Position after the `]` that closes an optional argument whose interior
/// scan starts at `i` with `depth` brackets open.
pub open spec fn closing_bracket_from(b: Seq<u8>, i: int, depth: nat) -> Option<int>
    decreases b.len() - i,
{
    if depth == 0 {
        Some(i)
    } else if i < 0 || i >= b.len() {
        None
    } else if b[i] == 0x5b {
        closing_bracket_from(b, i + 1, depth + 1)
    } else if b[i] == 0x5d {
        closing_bracket_from(b, i + 1, (depth - 1) as nat)
    } else if b[i] == 0x5c {
        if i + 1 < b.len() {
            closing_bracket_from(b, i + 2, depth)
        } else {
            None
        }
    } else {
        closing_bracket_from(b, i + 1, depth)
    }
}

/// Where scanning resumes after an optional `[...]` at `pos`: after its `]`,
/// or `pos` itself when there is no complete optional argument.
pub open spec fn after_optional_arg(b: Seq<u8>, pos: int) -> int {
    let i = skip_blanks(b, pos);
    if 0 <= i < b.len() && b[i] == 0x5b {
        match closing_bracket_from(b, i + 1, 1) {
            Some(j) => j,
            None => pos,
        }
    } else {
        pos
    }
}

/// End of the letters starting at `i`.
pub open spec fn letters_end(b: Seq<u8>, i: int) -> int
    decreases b.len() - i,
{
    if 0 <= i < b.len() && is_alpha(b[i]) {
        letters_end(b, i + 1)
    } else {
        i
    }
}

/// End (exclusive) of the command name of a command whose backslash is at
/// `pos`: a run of letters with an optional `*`, or one other character.
pub open spec fn command_end(b: Seq<u8>, pos: int) -> int {
    if pos < 0 || pos >= b.len() || b[pos] != 0x5c {
        pos
    } else if pos + 1 < b.len() && is_alpha(b[pos + 1]) {
        let e = letters_end(b, pos + 1);
        if e < b.len() && b[e] == 0x2a {
            e + 1
        } else {
            e
        }
    } else if pos + 1 < b.len() {
        pos + 2
    } else {
        pos + 1
    }
}

pub proof fn lemma_closing_brace_bounds(b: Seq<u8>, i: int, depth: nat)
    ensures
        closing_brace_from(b, i, depth) matches Some(j) ==> i <= j < b.len() && b[j] == 0x7d,
    decreases b.len() - i,
{
    if i < 0 || i >= b.len() || depth == 0 {
    } else if b[i] == 0x5c {
        if i + 1 < b.len() {
            lemma_closing_brace_bounds(b, i + 2, depth);
        }
    } else if b[i] == 0x7b {
        lemma_closing_brace_bounds(b, i + 1, depth + 1);
    } else if b[i] == 0x7d {
        if depth != 1 {
            lemma_closing_brace_bounds(b, i + 1, (depth - 1) as nat);
        }
    } else {
        lemma_closing_brace_bounds(b, i + 1, depth);
    }
}

pub proof fn lemma_closing_bracket_bounds(b: Seq<u8>, i: int, depth: nat)
    requires
        0 <= i <= b.len(),
    ensures
        closing_bracket_from(b, i, depth) matches Some(j) ==> i <= j <= b.len(),
    decreases b.len() - i,
{
    if depth == 0 {
    } else if i < 0 || i >= b.len() {
    } else if b[i] == 0x5b {
        lemma_closing_bracket_bounds(b, i + 1, depth + 1);
    } else if b[i] == 0x5d {
        lemma_closing_bracket_bounds(b, i + 1, (depth - 1) as nat);
    } else if b[i] == 0x5c {
        if i + 1 < b.len() {
            lemma_closing_bracket_bounds(b, i + 2, depth);
        }
    } else {
        lemma_closing_bracket_bounds(b, i + 1, depth);
    }
}

pub proof fn lemma_skip_blanks_bounds(b: Seq<u8>, i: int)
    ensures
        i <= skip_blanks(b, i),
        0 <= i <= b.len() ==> skip_blanks(b, i) <= b.len(),
    decreases b.len() - i,
{
    if 0 <= i < b.len() && is_blank(b[i]) {
        lemma_skip_blanks_bounds(b, i + 1);
    }
}

pub proof fn lemma_letters_end_bounds(b: Seq<u8>, i: int)
    ensures
        i <= letters_end(b, i),
        0 <= i <= b.len() ==> letters_end(b, i) <= b.len(),
        forall|k: int| i <= k < letters_end(b, i) ==> is_alpha(#[trigger] b[k]),
    decreases b.len() - i,
{
    if 0 <= i < b.len() && is_alpha(b[i]) {
        lemma_letters_end_bounds(b, i + 1);
    }
}

/// `braced_group` on the byte level; positions are byte offsets.
pub fn braced_group_bytes(b: &[u8], open_pos: usize) -> (res: Option<(usize, usize)>)
    ensures
        braced_group(b@, open_pos as int) == match res {
            Some((cs, ce)) => Some((cs as int, ce as int)),
            None => None,
        },
        res matches Some((cs, ce)) ==> cs == open_pos + 1 && cs <= ce < b.len(),
{
    if open_pos >= b.len() || b[open_pos] != 0x7b {
        return None;
    }
    let content_start = open_pos + 1;
    let mut depth: usize = 1;
    let mut i = content_start;
    proof {
        lemma_closing_brace_bounds(b@, content_start as int, 1);
    }
    while i < b.len()
        invariant
            open_pos < b.len(),
            b@[open_pos as int] == 0x7b,
            content_start == open_pos + 1,
            content_start <= i,
            1 <= depth <= i,
            i <= b.len() + 1,
            closing_brace_from(b@, i as int, depth as nat) == closing_brace_from(
                b@,
                content_start as int,
                1,
            ),
        decreases b.len() - i,
    {
        let c = b[i];
        if c == 0x5c {
            if i + 1 >= b.len() {
                return None;
            }
            i = i + 2;
        } else if c == 0x7b {
            depth = depth + 1;
            i = i + 1;
        } else if c == 0x7d {
            if depth == 1 {
                return Some((content_start, i));
            }
            depth = depth - 1;
            i = i + 1;
        } else {
            i = i + 1;
        }
    }
    None
}

/// Find the matching closing brace for an opening brace at `open_pos`.
///
/// Returns `Some((content_start, content_end))` where the content lies
/// strictly between the braces and `content_end` is the index of the closing
/// `}`. Handles arbitrary nesting and backslash-escaped braces.
pub fn find_braced_group(s: &str, open_pos: usize) -> (res: Option<(usize, usize)>)
    ensures
        braced_group(s.spec_bytes(), open_pos as int) == match res {
            Some((cs, ce)) => Some((cs as int, ce as int)),
            None => None,
        },
{
    braced_group_bytes(s.as_bytes(), open_pos)
}

/// `skip_blanks` on the byte level.
pub fn skip_blanks_bytes(b: &[u8], pos: usize) -> (res: usize)
    requires
        pos <= b.len(),
    ensures
        res as int == skip_blanks(b@, pos as int),
        pos <= res <= b.len(),
{
    let mut i = pos;
    while i < b.len() && (b[i] == 0x20 || b[i] == 0x09 || b[i] == 0x0a)
        invariant
            pos <= i <= b.len(),
            skip_blanks(b@, i as int) == skip_blanks(b@, pos as int),
        decreases b.len() - i,
    {
        i = i + 1;
    }
    i
}

/// `command_arg` on the byte level.
pub fn command_arg_bytes(b: &[u8], cmd_end: usize) -> (res: Option<(usize, usize, usize)>)
    ensures
        command_arg(b@, cmd_end as int) == match res {
            Some((cs, ce, after)) => Some((cs as int, ce as int, after as int)),
            None => None,
        },
        res matches Some((cs, ce, after)) ==> cmd_end < cs <= ce < after <= b.len()
            && after == ce + 1,
{
    if cmd_end > b.len() {
        proof {
            lemma_skip_blanks_bounds(b@, cmd_end as int);
        }
        return None;
    }
    let i = skip_blanks_bytes(b, cmd_end);
    match braced_group_bytes(b, i) {
        Some((cs, ce)) => {
            Some((cs, ce, ce + 1))
        },
        None => None,
    }
}

/// After a command name ends at `cmd_end`, skip optional whitespace, look for
/// `{`, and extract the braced argument.
///
/// Returns `Some((content_start, content_end, after_close))`.
pub fn extract_command_arg(s: &str, cmd_end: usize) -> (res: Option<(usize, usize, usize)>)
    ensures
        command_arg(s.spec_bytes(), cmd_end as int) == match res {
            Some((cs, ce, after)) => Some((cs as int, ce as int, after as int)),
            None => None,
        },
{
    command_arg_bytes(s.as_bytes(), cmd_end)
}

/// `after_optional_arg` on the byte level.
pub fn after_optional_arg_bytes(b: &[u8], pos: usize) -> (res: usize)
    ensures
        res as int == after_optional_arg(b@, pos as int),
        pos <= res,
        pos <= b.len() ==> res <= b.len(),
{
    proof {
        lemma_skip_blanks_bounds(b@, pos as int);
    }
    if pos > b.len() {
        return pos;
    }
    let mut i = skip_blanks_bytes(b, pos);
    if i >= b.len() || b[i] != 0x5b {
        return pos;
    }
    let ghost open = i;
    i = i + 1;
    let ghost start = i;
    proof {
        lemma_closing_bracket_bounds(b@, start as int, 1);
    }
    let mut depth: usize = 1;
    while i < b.len() && depth > 0
        invariant
            open == skip_blanks(b@, pos as int),
            open < b.len(),
            b@[open as int] == 0x5b,
            start == open + 1,
            start <= i <= b.len() + 1,
            depth <= i,
            pos < start,
            closing_bracket_from(b@, i as int, depth as nat) == closing_bracket_from(
                b@,
                start as int,
                1,
            ),
        decreases b.len() - i,
    {
        let c = b[i];
        if c == 0x5b {
            depth = depth + 1;
            i = i + 1;
        } else if c == 0x5d {
            depth = depth - 1;
            i = i + 1;
        } else if c == 0x5c {
            if i + 1 >= b.len() {
                return pos;
            }
            i = i + 2;
        } else {
            i = i + 1;
        }
    }
    if depth == 0 {
        i
    } else {
        pos
    }
}

/// Skip an optional argument `[...]` if present at `pos`.
/// Returns the position after the closing `]`, or `pos` if there is none.
pub fn skip_optional_arg(s: &str, pos: usize) -> (res: usize)
    ensures
        res as int == after_optional_arg(s.spec_bytes(), pos as int),
{
    after_optional_arg_bytes(s.as_bytes(), pos)
}

/// `command_end` on the byte level.
pub fn command_end_bytes(b: &[u8], pos: usize) -> (res: usize)
    ensures
        res as int == command_end(b@, pos as int),
        pos <= res,
        pos <= b.len() ==> res <= b.len(),
        pos < b.len() && b@[pos as int] == 0x5c ==> pos < res,
{
    if pos >= b.len() || b[pos] != 0x5c {
        return pos;
    }
    let mut i = pos + 1;
    if i < b.len() && is_alpha_byte(b[i]) {
        proof {
            lemma_letters_end_bounds(b@, i as int);
        }
        while i < b.len() && is_alpha_byte(b[i])
            invariant
                pos < i <= b.len(),
                letters_end(b@, i as int) == letters_end(b@, pos + 1),
            decreases b.len() - i,
        {
            i = i + 1;
        }
        if i < b.len() && b[i] == 0x2a {
            i = i + 1;
        }
    } else if i < b.len() {
        i = i + 1;
    }
    i
}

/// Find the end of the command name of a LaTeX command whose backslash is at
/// `backslash_pos`: the index of the first byte not part of the name.
/// Starred variants like `\section*` include the star.
pub fn find_command_end(s: &str, backslash_pos: usize) -> (res: usize)
    ensures
        res as int == command_end(s.spec_bytes(), backslash_pos as int),
{
    command_end_bytes(s.as_bytes(), backslash_pos)
}

/// An optional argument `[...]` at `pos` (after blanks): the range of its
/// content and the position after its `]`.
pub open spec fn optional_arg(b: Seq<u8>, pos: int) -> Option<(int, int, int)> {
    let i = skip_blanks(b, pos);
    if 0 <= i < b.len() && b[i] == 0x5b {
        match closing_bracket_from(b, i + 1, 1) {
            Some(j) => Some((i + 1, j - 1, j)),
            None => None,
        }
    } else {
        None
    }
}

/// `optional_arg` on the byte level.
pub fn optional_arg_bytes(b: &[u8], pos: usize) -> (res: Option<(usize, usize, usize)>)
    ensures
        optional_arg(b@, pos as int) == match res {
            Some((cs, ce, after)) => Some((cs as int, ce as int, after as int)),
            None => None,
        },
        res matches Some((cs, ce, after)) ==> pos < cs <= ce < after <= b.len() && after == ce + 1,
{
    proof {
        lemma_skip_blanks_bounds(b@, pos as int);
    }
    if pos > b.len() {
        return None;
    }
    let i = skip_blanks_bytes(b, pos);
    if i >= b.len() || b[i] != 0x5b {
        return None;
    }
    let j = after_optional_arg_bytes(b, i);
    proof {
        assert(skip_blanks(b@, i as int) == i as int);
        lemma_closing_bracket_bounds(b@, i + 1, 1);
    }
    if j == i {
        return None;
    }
    proof {
        lemma_closing_bracket_ends_with_bracket(b@, i + 1, 1);
    }
    Some((i + 1, j - 1, j))
}

pub proof fn lemma_closing_bracket_ends_with_bracket(b: Seq<u8>, i: int, depth: nat)
    requires
        0 <= i <= b.len(),
        depth >= 1,
    ensures
        closing_bracket_from(b, i, depth) matches Some(j) ==> i < j && b[j - 1] == 0x5d,
    decreases b.len() - i,
{
    if i >= b.len() {
    } else if b[i] == 0x5b {
        lemma_closing_bracket_ends_with_bracket(b, i + 1, depth + 1);
    } else if b[i] == 0x5d {
        if depth > 1 {
            lemma_closing_bracket_ends_with_bracket(b, i + 1, (depth - 1) as nat);
        }
    } else if b[i] == 0x5c {
        if i + 1 < b.len() {
            lemma_closing_bracket_ends_with_bracket(b, i + 2, depth);
        }
    } else {
        lemma_closing_bracket_ends_with_bracket(b, i + 1, depth);
    }
}

/// Extract an optional argument `[...]` at `pos` (after blanks).
/// Returns `Some((content_start, content_end, after_close))`.
pub fn extract_optional_arg(s: &str, pos: usize) -> (res: Option<(usize, usize, usize)>)
    ensures
        optional_arg(s.spec_bytes(), pos as int) == match res {
            Some((cs, ce, after)) => Some((cs as int, ce as int, after as int)),
            None => None,
        },
{
    optional_arg_bytes(s.as_bytes(), pos)
}

/// ASCII letter test.
pub fn is_alpha_byte(c: u8) -> (res: bool)
    ensures
        res == is_alpha(c),
{
    (0x41 <= c && c <= 0x5a) || (0x61 <= c && c <= 0x7a)
}

} // verus!
