//! Canvas logic: indentation of the assembled tokens by brace depth.
use vstd::prelude::*;
use crate::text::{decimal, decimal_string, str_eq, views};

verus! {

broadcast use vstd::string::group_string_axioms;

/// Brace depth after the first `n` tokens: `}` lowers it (never below 0)
/// and `{` raises it.
pub open spec fn depth_after(tokens: Seq<(String, String)>, n: int) -> nat
    decreases n,
{
    if n <= 0 {
        0
    } else {
        let d = depth_after(tokens, n - 1);
        let t = tokens[n - 1].0@;
        let d1: nat = if t == "}"@ { if d > 0 { (d - 1) as nat } else { 0 } } else { d };
        if t == "{"@ { d1 + 1 } else { d1 }
    }
}

/// Depth at which token `i` is drawn: a `}` is drawn at the depth of the
/// block it closes.
pub open spec fn render_depth(tokens: Seq<(String, String)>, i: int) -> nat {
    let d = depth_after(tokens, i);
    if tokens[i].0@ == "}"@ { if d > 0 { (d - 1) as nat } else { 0 } } else { d }
}

/// `d * 1.5` as `{}` prints it: an integer, or an integer followed by `.5`.
pub open spec fn one_and_a_half(d: nat) -> Seq<char> {
    decimal(d + d / 2) + if d % 2 == 1 { ".5"@ } else { seq![] }
}

/// The style of a token drawn at depth `d`.
pub open spec fn indent_style(d: nat) -> Seq<char> {
    "margin-left: "@ + one_and_a_half(d) + "rem"@
}

/// One inline `margin-left` style per token, from its brace depth
/// (1.5rem per level).
pub fn compute_indent_styles(tokens: &[(String, String)]) -> (styles: Vec<String>)
    requires
        tokens@.len() <= u32::MAX,
    ensures
        styles@.len() == tokens@.len(),
        forall|i: int|
            0 <= i < tokens@.len() ==> (#[trigger] styles@[i])@ == indent_style(
                render_depth(tokens@, i),
            ),
{
    let mut styles: Vec<String> = Vec::new();
    let mut depth: u32 = 0;
    let mut i: usize = 0;
    while i < tokens.len()
        invariant
            tokens@.len() <= u32::MAX,
            i <= tokens@.len(),
            depth == depth_after(tokens@, i as int),
            depth <= i,
            styles@.len() == i,
            forall|j: int|
                0 <= j < i ==> (#[trigger] styles@[j])@ == indent_style(render_depth(tokens@, j)),
        decreases tokens@.len() - i,
    {
        let token = &tokens[i].0;
        let is_close = str_eq(token.as_str(), "}");
        let is_open = str_eq(token.as_str(), "{");
        if is_close {
            if depth > 0 {
                depth = depth - 1;
            }
        }
        let d = depth as u64;
        let mut style = String::from_str("margin-left: ");
        let whole = decimal_string(d + d / 2);
        style.append(whole.as_str());
        if d % 2 == 1 {
            style.append(".5");
        }
        style.append("rem");
        proof {
            assert(d == render_depth(tokens@, i as int));
            assert(style@ =~= indent_style(d as nat));
        }
        styles.push(style);
        if is_open {
            depth = depth + 1;
        }
        assert(depth == depth_after(tokens@, i + 1));
        i = i + 1;
    }
    styles
}

/// The words of the structural hint still to show: those past the tokens
/// already placed.
pub fn ghost_tail(ghost: &[String], placed: usize) -> (r: Vec<String>)
    ensures
        views(r@) == if placed < ghost@.len() {
            views(ghost@).skip(placed as int)
        } else {
            Seq::empty()
        },
{
    let mut r: Vec<String> = Vec::new();
    let mut i: usize = placed;
    while i < ghost.len()
        invariant
            placed <= i || ghost@.len() <= placed,
            i >= placed,
            placed < ghost@.len() ==> i <= ghost@.len(),
            placed < ghost@.len() ==> views(r@) == views(ghost@).subrange(placed as int, i as int),
            ghost@.len() <= placed ==> r@.len() == 0,
        decreases ghost@.len() - i,
    {
        r.push(ghost[i].clone());
        proof {
            assert(views(ghost@).subrange(placed as int, i + 1) =~= views(ghost@).subrange(
                placed as int,
                i as int,
            ).push(ghost@[i as int]@));
        }
        i = i + 1;
    }
    proof {
        if placed < ghost@.len() {
            assert(views(ghost@).subrange(placed as int, ghost@.len() as int) =~= views(ghost@).skip(
                placed as int,
            ));
        } else {
            assert(views(r@) =~= Seq::<Seq<char>>::empty());
        }
    }
    r
}

/// The canvas shows its placeholder: nothing placed and no hint words.
pub fn canvas_is_empty(tokens: &[(String, String)], ghost: &Option<Vec<String>>) -> (r: bool)
    ensures
        r == (tokens@.len() == 0 && ghost is None),
{
    tokens.len() == 0 && ghost.is_none()
}

} // verus!
