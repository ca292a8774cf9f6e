//! Output-shape inference for every operation.
//!
//! Each rule is stated as a spec function from the input shapes to either
//! the output shapes or the reason the inputs are rejected; the executable
//! rules are proved to compute exactly that.

use vstd::prelude::*;
use crate::arith::{sat_add_usize, sat_mul_usize, add_sat_usize, mul_sat_usize};
use crate::error::{owned, Error, Result};
use crate::op::{Op, shapes_view, vecs_view, spec_normalize_axis, normalize_axis};
use crate::scalar::is_non_negative_bits;
use crate::text::{dec_text, int_text, shape_text, push_dec, push_int, push_shape};

verus! {

/// Outcome of shape inference: the output shapes, or why the inputs are
/// rejected.
pub type ShapeOutcome = std::result::Result<Seq<Seq<usize>>, Seq<char>>;

/// A copy of a shape.
pub fn shape_to_vec(s: &[usize]) -> (r: Vec<usize>)
    ensures
        r@ == s@,
{
    let mut r: Vec<usize> = Vec::new();
    let mut i: usize = 0;
    while i < s.len()
        invariant
            i <= s@.len(),
            r@ == s@.subrange(0, i as int),
        decreases s@.len() - i,
    {
        r.push(s[i]);
        i = i + 1;
    }
    r
}

// ---------------------------------------------------------------- MatMul

/// `[.., m, k] @ [.., k, n] -> [.., m, n]` (batch dims taken from the left).
pub open spec fn matmul_rule(s: Seq<Seq<usize>>) -> ShapeOutcome {
    if s.len() != 2 {
        Err("expected 2 inputs"@)
    } else if s[0].len() < 2 || s[1].len() < 2 {
        Err("inputs must be at least 2-dimensional"@)
    } else if s[0].last() != s[1][s[1].len() - 2] {
        Err("contraction dimension mismatch: a[-1]="@ + dec_text(s[0].last() as nat)
            + " != b[-2]="@ + dec_text(s[1][s[1].len() - 2] as nat))
    } else {
        Ok(seq![s[0].drop_last().push(s[1].last())])
    }
}

fn infer_matmul(shapes: &[&[usize]]) -> (r: std::result::Result<Vec<Vec<usize>>, String>)
    ensures
        matmul_rule(shapes_view(shapes)) == (match r {
            Ok(v) => Ok(vecs_view(v)),
            Err(e) => Err(e@),
        }),
{
    if shapes.len() != 2 {
        return Err(owned("expected 2 inputs"));
    }
    let a = shapes[0];
    let b = shapes[1];
    if a.len() < 2 || b.len() < 2 {
        return Err(owned("inputs must be at least 2-dimensional"));
    }
    let a_last = a[a.len() - 1];
    let b_prev_last = b[b.len() - 2];
    if a_last != b_prev_last {
        let mut m = owned("contraction dimension mismatch: a[-1]=");
        push_dec(&mut m, a_last as u64);
        m.append(" != b[-2]=");
        push_dec(&mut m, b_prev_last as u64);
        return Err(m);
    }
    let mut out: Vec<usize> = Vec::new();
    let mut i: usize = 0;
    while i < a.len() - 1
        invariant
            a@ == shapes_view(shapes)[0],
            2 <= a@.len(),
            i <= a@.len() - 1,
            out@ == a@.subrange(0, i as int),
        decreases a@.len() - 1 - i,
    {
        out.push(a[i]);
        i = i + 1;
    }
    out.push(b[b.len() - 1]);
    let mut res: Vec<Vec<usize>> = Vec::new();
    res.push(out);
    proof {
        assert(a@.subrange(0, a@.len() - 1) =~= a@.drop_last());
        assert(vecs_view(res) =~= seq![a@.drop_last().push(b@.last())]);
    }
    Ok(res)
}

// ------------------------------------------------------------- Transpose

/// Scan a permutation from position `i`: `None` when every remaining entry
/// is in range and new, `Some(true)` at the first out-of-range entry,
/// `Some(false)` at the first repeated entry.
pub open spec fn perm_scan(perm: Seq<usize>, n: usize, i: nat) -> Option<bool>
    decreases perm.len() - i,
{
    if i >= perm.len() {
        None
    } else if perm[i as int] >= n {
        Some(true)
    } else if perm.subrange(0, i as int).contains(perm[i as int]) {
        Some(false)
    } else {
        perm_scan(perm, n, i + 1)
    }
}

/// Output dim `i` is input dim `perm[i]`; `perm` must be a permutation of
/// the input's axes.
pub open spec fn transpose_rule(perm: Seq<usize>, s: Seq<Seq<usize>>) -> ShapeOutcome {
    let a = s[0];
    if perm.len() != a.len() {
        Err("permutation length mismatch"@)
    } else {
        match perm_scan(perm, a.len() as usize, 0) {
            Some(true) => Err("permutation index out of bounds"@),
            Some(false) => Err("permutation index appears multiple times, must be unique"@),
            None => Ok(seq![Seq::new(a.len(), |i: int| a[perm[i] as int])]),
        }
    }
}

fn infer_transpose(perm: &Vec<usize>, shapes: &[&[usize]]) -> (r: std::result::Result<Vec<Vec<usize>>, String>)
    requires
        shapes@.len() > 0,
    ensures
        transpose_rule(perm@, shapes_view(shapes)) == (match r {
            Ok(v) => Ok(vecs_view(v)),
            Err(e) => Err(e@),
        }),
{
    let a = shapes[0];
    if perm.len() != a.len() {
        return Err(owned("permutation length mismatch"));
    }
    let n = a.len();
    let mut out: Vec<usize> = Vec::new();
    let mut seen: Vec<bool> = Vec::new();
    let mut k: usize = 0;
    while k < n
        invariant
            k <= n,
            seen@.len() == k,
            forall|j: int| 0 <= j < k ==> !seen@[j],
        decreases n - k,
    {
        seen.push(false);
        k = k + 1;
    }
    let mut i: usize = 0;
    while i < n
        invariant
            a@ == shapes_view(shapes)[0],
            n == a@.len(),
            perm@.len() == n,
            i <= n,
            seen@.len() == n,
            forall|j: int| 0 <= j < n ==> seen@[j] == perm@.subrange(0, i as int).contains(j as usize),
            perm_scan(perm@, n, 0) == perm_scan(perm@, n, i as nat),
            out@ == Seq::new(i as nat, |j: int| a@[perm@[j] as int]),
        decreases n - i,
    {
        let p = perm[i];
        if p >= n {
            return Err(owned("permutation index out of bounds"));
        }
        if seen[p] {
            return Err(owned("permutation index appears multiple times, must be unique"));
        }
        proof {
            assert(!perm@.subrange(0, i as int).contains(p));
        }
        seen.set(p, true);
        out.push(a[p]);
        proof {
            let pre = perm@.subrange(0, i as int);
            let post = perm@.subrange(0, i + 1);
            assert(post =~= pre.push(p));
            assert forall|j: int| 0 <= j < n implies seen@[j] == post.contains(j as usize) by {
                if j == p as int {
                    assert(post[i as int] == p);
                } else {
                    if post.contains(j as usize) {
                        let w = choose|w: int| 0 <= w < post.len() && post[w] == j as usize;
                        assert(pre[w] == j as usize);
                    }
                    if pre.contains(j as usize) {
                        let w = choose|w: int| 0 <= w < pre.len() && pre[w] == j as usize;
                        assert(post[w] == j as usize);
                    }
                }
            }
            assert(out@ =~= Seq::new((i + 1) as nat, |j: int| a@[perm@[j] as int]));
        }
        i = i + 1;
    }
    let mut res: Vec<Vec<usize>> = Vec::new();
    res.push(out);
    proof {
        assert(vecs_view(res) =~= seq![Seq::new(a@.len(), |j: int| a@[perm@[j] as int])]);
    }
    Ok(res)
}

// ------------------------------------------------------------ PatchEmbed

/// Number of tokens a patch embedding produces for an `h x w` image:
/// one per patch plus the class token; 1 when `patch_size` is 0.
pub open spec fn patch_tokens(h: usize, w: usize, patch: usize) -> int {
    if patch == 0 { 1 } else { (h / patch) * (w / patch) + 1 }
}

/// `[b, c, h, w] -> [b, tokens, embed_dim]`; the channel count must match
/// `in_channels` unless `in_channels` is 0.
pub open spec fn patch_embed_rule(patch: usize, in_channels: usize, embed: usize, s: Seq<Seq<usize>>) -> ShapeOutcome {
    let a = s[0];
    if a.len() < 4 {
        Err("PatchEmbed requires rank 4 input"@)
    } else if in_channels != 0 && a[1] != in_channels {
        Err("PatchEmbed expects "@ + dec_text(in_channels as nat) + " input channels, got "@
            + dec_text(a[1] as nat))
    } else {
        Ok(seq![seq![a[0], patch_tokens(a[2], a[3], patch) as usize, embed]])
    }
}

fn infer_patch_embed(patch: usize, in_channels: usize, embed: usize, shapes: &[&[usize]]) -> (r: std::result::Result<Vec<Vec<usize>>, String>)
    requires
        shapes@.len() > 0,
        shapes@[0]@.len() >= 4 ==> patch_tokens(shapes@[0]@[2], shapes@[0]@[3], patch) <= usize::MAX,
    ensures
        patch_embed_rule(patch, in_channels, embed, shapes_view(shapes)) == (match r {
            Ok(v) => Ok(vecs_view(v)),
            Err(e) => Err(e@),
        }),
{
    let a = shapes[0];
    if a.len() < 4 {
        return Err(owned("PatchEmbed requires rank 4 input"));
    }
    if in_channels != 0 && a[1] != in_channels {
        let mut m = owned("PatchEmbed expects ");
        push_dec(&mut m, in_channels as u64);
        m.append(" input channels, got ");
        push_dec(&mut m, a[1] as u64);
        return Err(m);
    }
    let h = a[2];
    let w = a[3];
    let s = if patch == 0 {
        1
    } else {
        proof {
            assert((h / patch) * (w / patch) <= usize::MAX);
        }
        (h / patch) * (w / patch) + 1
    };
    let mut out: Vec<usize> = Vec::new();
    out.push(a[0]);
    out.push(s);
    out.push(embed);
    let mut res: Vec<Vec<usize>> = Vec::new();
    res.push(out);
    proof {
        assert(s as int == patch_tokens(h, w, patch));
        assert(out@ =~= seq![a@[0], patch_tokens(h, w, patch) as usize, embed]);
        assert(vecs_view(res) =~= seq![seq![a@[0], patch_tokens(h, w, patch) as usize, embed]]);
    }
    Ok(res)
}

// ---------------------------------------------------------------- Linear

/// A dense layer replaces the last dimension with `out_features`.
pub open spec fn linear_rule(out_features: usize, s: Seq<Seq<usize>>) -> ShapeOutcome {
    if s.len() != 1 {
        Err("Linear expects 1 input, got "@ + dec_text(s.len()))
    } else if out_features == 0 {
        Err("Linear out_features must be > 0"@)
    } else if s[0].len() == 0 {
        Err("Linear requires a rank >= 1 input"@)
    } else {
        Ok(seq![s[0].update(s[0].len() - 1, out_features)])
    }
}

fn infer_linear(out_features: usize, shapes: &[&[usize]]) -> (r: std::result::Result<Vec<Vec<usize>>, String>)
    ensures
        linear_rule(out_features, shapes_view(shapes)) == (match r {
            Ok(v) => Ok(vecs_view(v)),
            Err(e) => Err(e@),
        }),
{
    if shapes.len() != 1 {
        let mut m = owned("Linear expects 1 input, got ");
        push_dec(&mut m, shapes.len() as u64);
        return Err(m);
    }
    if out_features == 0 {
        return Err(owned("Linear out_features must be > 0"));
    }
    let a = shapes[0];
    if a.len() == 0 {
        return Err(owned("Linear requires a rank >= 1 input"));
    }
    let mut out = shape_to_vec(a);
    let last = out.len() - 1;
    out.set(last, out_features);
    let mut res: Vec<Vec<usize>> = Vec::new();
    res.push(out);
    proof {
        assert(vecs_view(res) =~= seq![a@.update(a@.len() - 1, out_features)]);
    }
    Ok(res)
}

// ----------------------------------------------------------------- Split

/// Saturating sum of a list of sizes.
pub open spec fn sum_sat(s: Seq<usize>) -> usize
    decreases s.len(),
{
    if s.len() == 0 { 0 } else { sat_add_usize(sum_sat(s.drop_last()), s.last()) }
}

/// Splitting along an axis gives one output per section, equal to the input
/// with the axis resized to that section; the sections must cover the axis.
pub open spec fn split_rule(dim: isize, sections: Seq<usize>, s: Seq<Seq<usize>>) -> ShapeOutcome {
    let a = s[0];
    match spec_normalize_axis(dim, a.len() as usize) {
        None => Err("split dim "@ + int_text(dim as int) + " out of range for rank "@ + dec_text(a.len())),
        Some(axis) => if sections.len() == 0 {
            Err("split requires at least one section"@)
        } else if sum_sat(sections) != a[axis as int] {
            Err("split sections sum "@ + dec_text(sum_sat(sections) as nat) + " != dim size "@
                + dec_text(a[axis as int] as nat))
        } else {
            Ok(Seq::new(sections.len(), |i: int| a.update(axis as int, sections[i])))
        },
    }
}

fn infer_split(dim: isize, sections: &Vec<usize>, shapes: &[&[usize]]) -> (r: std::result::Result<Vec<Vec<usize>>, String>)
    requires
        shapes@.len() > 0,
    ensures
        split_rule(dim, sections@, shapes_view(shapes)) == (match r {
            Ok(v) => Ok(vecs_view(v)),
            Err(e) => Err(e@),
        }),
{
    let a = shapes[0];
    let axis = match normalize_axis(dim, a.len()) {
        Some(x) => x,
        None => {
            let mut m = owned("split dim ");
            push_int(&mut m, dim);
            m.append(" out of range for rank ");
            push_dec(&mut m, a.len() as u64);
            return Err(m);
        },
    };
    if sections.len() == 0 {
        return Err(owned("split requires at least one section"));
    }
    let mut sum: usize = 0;
    let mut i: usize = 0;
    while i < sections.len()
        invariant
            i <= sections@.len(),
            sum == sum_sat(sections@.subrange(0, i as int)),
        decreases sections@.len() - i,
    {
        proof {
            assert(sections@.subrange(0, i + 1).drop_last() =~= sections@.subrange(0, i as int));
        }
        sum = add_sat_usize(sum, sections[i]);
        i = i + 1;
    }
    proof {
        assert(sections@.subrange(0, sections@.len() as int) =~= sections@);
    }
    if sum != a[axis] {
        let mut m = owned("split sections sum ");
        push_dec(&mut m, sum as u64);
        m.append(" != dim size ");
        push_dec(&mut m, a[axis] as u64);
        return Err(m);
    }
    let mut res: Vec<Vec<usize>> = Vec::new();
    let mut j: usize = 0;
    while j < sections.len()
        invariant
            a@ == shapes_view(shapes)[0],
            axis < a@.len(),
            j <= sections@.len(),
            vecs_view(res) =~= Seq::new(j as nat, |k: int| a@.update(axis as int, sections@[k])),
        decreases sections@.len() - j,
    {
        let mut shape = shape_to_vec(a);
        shape.set(axis, sections[j]);
        let ghost before = res@;
        res.push(shape);
        proof {
            assert(res@ == before.push(shape));
            assert(vecs_view(res) =~= Seq::new(j as nat, |k: int| a@.update(axis as int, sections@[k])).push(shape@));
            assert(vecs_view(res) =~= Seq::new((j + 1) as nat, |k: int| a@.update(axis as int, sections@[k])));
        }
        j = j + 1;
    }
    Ok(res)
}

// ---------------------------------------------------------------- Concat

/// Check the inputs of a concatenation from input `k` on: `None` when all
/// have the reference rank and agree with it off the axis, otherwise the
/// reason for the first input that does not.
pub open spec fn concat_scan(s: Seq<Seq<usize>>, ax: int, k: nat) -> Option<Seq<char>>
    decreases s.len() - k,
{
    if k >= s.len() {
        None
    } else if s[k as int].len() != s[0].len() {
        Some("concat inputs have differing ranks"@)
    } else {
        match first_disagreement(s[0], s[k as int], ax, 0) {
            Some(i) => Some("concat inputs disagree on non-axis dim "@ + dec_text(i) + ": "@
                + dec_text(s[0][i as int] as nat) + " != "@ + dec_text(s[k as int][i as int] as nat)),
            None => concat_scan(s, ax, k + 1),
        }
    }
}

/// First index `>= i` other than `ax` where two equal-rank shapes differ.
pub open spec fn first_disagreement(a: Seq<usize>, b: Seq<usize>, ax: int, i: nat) -> Option<nat>
    decreases a.len() - i,
{
    if i >= a.len() {
        None
    } else if i != ax && a[i as int] != b[i as int] {
        Some(i)
    } else {
        first_disagreement(a, b, ax, i + 1)
    }
}

/// Saturating sum of the axis dimension over all inputs.
pub open spec fn axis_total(s: Seq<Seq<usize>>, ax: int) -> usize
    decreases s.len(),
{
    if s.len() == 0 { 0 } else { sat_add_usize(axis_total(s.drop_last(), ax), s.last()[ax]) }
}

/// Concatenation sums the axis dimension; all inputs must share the first
/// input's rank and all its other dimensions.
pub open spec fn concat_rule(axis: isize, s: Seq<Seq<usize>>) -> ShapeOutcome {
    let a = s[0];
    match spec_normalize_axis(axis, a.len() as usize) {
        None => Err("concat axis "@ + int_text(axis as int) + " out of range for rank "@ + dec_text(a.len())),
        Some(ax) => match concat_scan(s, ax as int, 0) {
            Some(reason) => Err(reason),
            None => Ok(seq![a.update(ax as int, axis_total(s, ax as int))]),
        },
    }
}

fn infer_concat(axis: isize, shapes: &[&[usize]]) -> (r: std::result::Result<Vec<Vec<usize>>, String>)
    requires
        shapes@.len() > 0,
    ensures
        concat_rule(axis, shapes_view(shapes)) == (match r {
            Ok(v) => Ok(vecs_view(v)),
            Err(e) => Err(e@),
        }),
{
    let ghost sv = shapes_view(shapes);
    let a = shapes[0];
    let ax = match normalize_axis(axis, a.len()) {
        Some(x) => x,
        None => {
            let mut m = owned("concat axis ");
            push_int(&mut m, axis);
            m.append(" out of range for rank ");
            push_dec(&mut m, a.len() as u64);
            return Err(m);
        },
    };
    let mut total: usize = 0;
    let mut k: usize = 0;
    while k < shapes.len()
        invariant
            sv == shapes_view(shapes),
            sv.len() == shapes@.len(),
            a@ == sv[0],
            ax < a@.len(),
            spec_normalize_axis(axis, a@.len() as usize) == Some(ax),
            k <= sv.len(),
            concat_scan(sv, ax as int, 0) == concat_scan(sv, ax as int, k as nat),
            total == axis_total(sv.subrange(0, k as int), ax as int),
            forall|j: int| 0 <= j < k ==> sv[j].len() == a@.len(),
        decreases sv.len() - k,
    {
        let s = shapes[k];
        assert(s@ == sv[k as int]);
        if s.len() != a.len() {
            assert(concat_scan(sv, ax as int, k as nat) == Some("concat inputs have differing ranks"@));
            return Err(owned("concat inputs have differing ranks"));
        }
        let mut i: usize = 0;
        while i < a.len()
            invariant
                sv == shapes_view(shapes),
                sv.len() == shapes@.len(),
                k < sv.len(),
                spec_normalize_axis(axis, a@.len() as usize) == Some(ax),
                concat_scan(sv, ax as int, 0) == concat_scan(sv, ax as int, k as nat),
                a@ == sv[0],
                s@ == sv[k as int],
                s@.len() == a@.len(),
                i <= a@.len(),
                first_disagreement(a@, s@, ax as int, 0) == first_disagreement(a@, s@, ax as int, i as nat),
            decreases a@.len() - i,
        {
            if i != ax && a[i] != s[i] {
                let mut m = owned("concat inputs disagree on non-axis dim ");
                push_dec(&mut m, i as u64);
                m.append(": ");
                push_dec(&mut m, a[i] as u64);
                m.append(" != ");
                push_dec(&mut m, s[i] as u64);
                return Err(m);
            }
            i = i + 1;
        }
        proof {
            assert(sv.subrange(0, k + 1).drop_last() =~= sv.subrange(0, k as int));
        }
        total = add_sat_usize(total, s[ax]);
        k = k + 1;
    }
    proof {
        assert(sv.subrange(0, sv.len() as int) =~= sv);
    }
    let mut out = shape_to_vec(a);
    out.set(ax, total);
    let mut res: Vec<Vec<usize>> = Vec::new();
    res.push(out);
    proof {
        assert(vecs_view(res) =~= seq![a@.update(ax as int, axis_total(sv, ax as int))]);
    }
    Ok(res)
}

// --------------------------------------------------------------- Reshape

/// The first target dimension below -1, if any (scanning from the front).
pub open spec fn first_invalid_dim(t: Seq<isize>) -> Option<isize>
    decreases t.len(),
{
    if t.len() == 0 {
        None
    } else {
        match first_invalid_dim(t.drop_last()) {
            Some(d) => Some(d),
            None => if t.last() < -1 { Some(t.last()) } else { None },
        }
    }
}

/// How many target dimensions are -1.
pub open spec fn infer_count(t: Seq<isize>) -> nat
    decreases t.len(),
{
    if t.len() == 0 {
        0
    } else {
        infer_count(t.drop_last()) + if t.last() == -1 { 1nat } else { 0nat }
    }
}

/// Saturating product of the non-negative target dimensions.
pub open spec fn known_product(t: Seq<isize>) -> usize
    decreases t.len(),
{
    if t.len() == 0 {
        1
    } else if t.last() < 0 {
        known_product(t.drop_last())
    } else {
        sat_mul_usize(known_product(t.drop_last()), t.last() as usize)
    }
}

/// Saturating element count of a shape, in `usize`.
pub open spec fn product_sat(a: Seq<usize>) -> usize
    decreases a.len(),
{
    if a.len() == 0 { 1 } else { sat_mul_usize(product_sat(a.drop_last()), a.last()) }
}

/// A reshape keeps the element count: at most one `-1` target dimension is
/// inferred from it, every other target dimension must be non-negative,
/// and a fully specified target must have exactly as many elements.
pub open spec fn reshape_rule(t: Seq<isize>, s: Seq<Seq<usize>>) -> ShapeOutcome {
    let total = product_sat(s[0]);
    let known = known_product(t);
    match first_invalid_dim(t) {
        Some(d) => Err("reshape target dim "@ + int_text(d as int) + " is invalid (only -1 may be negative)"@),
        None => if infer_count(t) > 1 {
            Err("reshape target has more than one -1"@)
        } else if infer_count(t) == 1 {
            if known == 0 || total % known != 0 {
                Err("cannot infer -1 dim: "@ + dec_text(total as nat)
                    + " elements not divisible by product of known dims "@ + dec_text(known as nat))
            } else {
                Ok(seq![Seq::new(t.len(), |i: int| if t[i] == -1 { (total / known) as usize } else { t[i] as usize })])
            }
        } else if known != total {
            Err("reshape target has "@ + dec_text(known as nat) + " elements but input has "@ + dec_text(total as nat))
        } else {
            Ok(seq![Seq::new(t.len(), |i: int| t[i] as usize)])
        },
    }
}

proof fn lemma_first_invalid_extends(t: Seq<isize>, i: int)
    requires
        0 <= i <= t.len(),
        first_invalid_dim(t.subrange(0, i)) is Some,
    ensures
        first_invalid_dim(t) == first_invalid_dim(t.subrange(0, i)),
    decreases t.len() - i,
{
    if i < t.len() {
        assert(t.subrange(0, i + 1).drop_last() =~= t.subrange(0, i));
        lemma_first_invalid_extends(t, i + 1);
    } else {
        assert(t.subrange(0, i) =~= t);
    }
}

fn infer_reshape(target: &Vec<isize>, shapes: &[&[usize]]) -> (r: std::result::Result<Vec<Vec<usize>>, String>)
    requires
        shapes@.len() > 0,
    ensures
        reshape_rule(target@, shapes_view(shapes)) == (match r {
            Ok(v) => Ok(vecs_view(v)),
            Err(e) => Err(e@),
        }),
{
    let a = shapes[0];
    let ghost t = target@;
    let mut total: usize = 1;
    let mut i: usize = 0;
    while i < a.len()
        invariant
            i <= a@.len(),
            total == product_sat(a@.subrange(0, i as int)),
        decreases a@.len() - i,
    {
        proof {
            assert(a@.subrange(0, i + 1).drop_last() =~= a@.subrange(0, i as int));
        }
        total = mul_sat_usize(total, a[i]);
        i = i + 1;
    }
    proof {
        assert(a@.subrange(0, a@.len() as int) =~= a@);
    }
    let mut known: usize = 1;
    let mut count: usize = 0;
    let mut j: usize = 0;
    while j < target.len()
        invariant
            t == target@,
            j <= t.len(),
            first_invalid_dim(t.subrange(0, j as int)) is None,
            count as nat == infer_count(t.subrange(0, j as int)),
            count <= j,
            known == known_product(t.subrange(0, j as int)),
        decreases t.len() - j,
    {
        let dim = target[j];
        proof {
            assert(t.subrange(0, j + 1).drop_last() =~= t.subrange(0, j as int));
        }
        if dim == -1 {
            count = count + 1;
        } else if dim < 0 {
            proof {
                lemma_first_invalid_extends(t, j + 1);
            }
            let mut m = owned("reshape target dim ");
            push_int(&mut m, dim);
            m.append(" is invalid (only -1 may be negative)");
            return Err(m);
        } else {
            known = mul_sat_usize(known, dim as usize);
        }
        j = j + 1;
    }
    proof {
        assert(t.subrange(0, t.len() as int) =~= t);
    }
    if count > 1 {
        return Err(owned("reshape target has more than one -1"));
    }
    let inferred: usize = if count == 1 {
        if known == 0 || total % known != 0 {
            let mut m = owned("cannot infer -1 dim: ");
            push_dec(&mut m, total as u64);
            m.append(" elements not divisible by product of known dims ");
            push_dec(&mut m, known as u64);
            return Err(m);
        }
        total / known
    } else {
        if known != total {
            let mut m = owned("reshape target has ");
            push_dec(&mut m, known as u64);
            m.append(" elements but input has ");
            push_dec(&mut m, total as u64);
            return Err(m);
        }
        0
    };
    let mut out: Vec<usize> = Vec::new();
    let mut k: usize = 0;
    while k < target.len()
        invariant
            t == target@,
            k <= t.len(),
            first_invalid_dim(t) is None,
            out@ =~= Seq::new(k as nat, |x: int| if t[x] == -1 { inferred } else { t[x] as usize }),
        decreases t.len() - k,
    {
        let dim = target[k];
        if dim == -1 {
            out.push(inferred);
        } else {
            out.push(dim as usize);
        }
        k = k + 1;
    }
    let mut res: Vec<Vec<usize>> = Vec::new();
    res.push(out);
    proof {
        if count == 1 {
            assert(vecs_view(res) =~= seq![Seq::new(t.len(), |x: int| if t[x] == -1 { (total / known) as usize } else { t[x] as usize })]);
        } else {
            assert(infer_count(t) == 0);
            assert forall|x: int| 0 <= x < t.len() implies t[x] != -1 by {
                lemma_no_infer_dims(t, x);
            }
            assert(out@ =~= Seq::new(t.len(), |x: int| t[x] as usize));
            assert(vecs_view(res) =~= seq![Seq::new(t.len(), |x: int| t[x] as usize)]);
        }
    }
    Ok(res)
}

proof fn lemma_no_infer_dims(t: Seq<isize>, x: int)
    requires
        0 <= x < t.len(),
        infer_count(t) == 0,
    ensures
        t[x] != -1,
    decreases t.len(),
{
    if x < t.len() - 1 {
        lemma_no_infer_dims(t.drop_last(), x);
    }
}

// ------------------------------------------------------------ Element-wise

/// Whether two shapes are identical.
pub fn same_shape(a: &[usize], b: &[usize]) -> (r: bool)
    ensures
        r == (a@ == b@),
{
    if a.len() != b.len() {
        return false;
    }
    let mut i: usize = 0;
    while i < a.len()
        invariant
            a@.len() == b@.len(),
            i <= a@.len(),
            forall|j: int| 0 <= j < i ==> a@[j] == b@[j],
        decreases a@.len() - i,
    {
        if a[i] != b[i] {
            return false;
        }
        i = i + 1;
    }
    proof {
        assert(a@ =~= b@);
    }
    true
}

/// Element-wise binary operations take two identically shaped inputs (no
/// broadcasting) and keep that shape.
pub open spec fn elementwise_rule(name: Seq<char>, s: Seq<Seq<usize>>) -> ShapeOutcome {
    if s.len() != 2 {
        Err("element-wise "@ + name + " expects 2 inputs, got "@ + dec_text(s.len()))
    } else if s[0] != s[1] {
        Err("element-wise "@ + name + " requires identical input shapes: "@ + shape_text(s[0]) + " != "@
            + shape_text(s[1]))
    } else {
        Ok(seq![s[0]])
    }
}

fn infer_elementwise(name: &str, shapes: &[&[usize]]) -> (r: std::result::Result<Vec<Vec<usize>>, String>)
    ensures
        elementwise_rule(name@, shapes_view(shapes)) == (match r {
            Ok(v) => Ok(vecs_view(v)),
            Err(e) => Err(e@),
        }),
{
    if shapes.len() != 2 {
        let mut m = owned("element-wise ");
        m.append(name);
        m.append(" expects 2 inputs, got ");
        push_dec(&mut m, shapes.len() as u64);
        return Err(m);
    }
    let a = shapes[0];
    let b = shapes[1];
    if !same_shape(a, b) {
        let mut m = owned("element-wise ");
        m.append(name);
        m.append(" requires identical input shapes: ");
        push_shape(&mut m, a);
        m.append(" != ");
        push_shape(&mut m, b);
        return Err(m);
    }
    let mut res: Vec<Vec<usize>> = Vec::new();
    res.push(shape_to_vec(a));
    proof {
        assert(vecs_view(res) =~= seq![a@]);
    }
    Ok(res)
}

// ----------------------------------------------------------------- Unary

/// Unary operations take exactly one input and keep its shape.
pub open spec fn unary_rule(name: Seq<char>, s: Seq<Seq<usize>>) -> ShapeOutcome {
    if s.len() != 1 {
        Err(name + " expects 1 input, got "@ + dec_text(s.len()))
    } else {
        Ok(seq![s[0]])
    }
}

fn infer_unary(name: &str, shapes: &[&[usize]]) -> (r: std::result::Result<Vec<Vec<usize>>, String>)
    ensures
        unary_rule(name@, shapes_view(shapes)) == (match r {
            Ok(v) => Ok(vecs_view(v)),
            Err(e) => Err(e@),
        }),
{
    if shapes.len() != 1 {
        let mut m = owned(name);
        m.append(" expects 1 input, got ");
        push_dec(&mut m, shapes.len() as u64);
        return Err(m);
    }
    let mut res: Vec<Vec<usize>> = Vec::new();
    res.push(shape_to_vec(shapes[0]));
    proof {
        assert(vecs_view(res) =~= seq![shapes@[0]@]);
    }
    Ok(res)
}

/// Layer normalization is unary, needs a rank >= 1 input and an epsilon
/// that is a number `>= 0`.
pub open spec fn layer_norm_rule(eps_bits: u32, s: Seq<Seq<usize>>) -> ShapeOutcome {
    if s.len() != 1 {
        unary_rule("layer_norm"@, s)
    } else if !is_non_negative_bits(eps_bits) {
        Err("layer_norm eps must be a non-negative number"@)
    } else if s[0].len() == 0 {
        Err("layer_norm requires a rank >= 1 input"@)
    } else {
        Ok(seq![s[0]])
    }
}

/// Softmax is unary and its dimension must lie in `[-rank, rank)`.
pub open spec fn softmax_rule(dim: isize, s: Seq<Seq<usize>>) -> ShapeOutcome {
    if s.len() != 1 {
        unary_rule("softmax"@, s)
    } else if spec_normalize_axis(dim, s[0].len() as usize) is None {
        Err("softmax dim "@ + int_text(dim as int) + " out of range for rank "@ + dec_text(s[0].len()))
    } else {
        Ok(seq![s[0]])
    }
}

// ----------------------------------------------------------------- Fused

/// A fused block keeps the shape of its first input, whose last dimension
/// must be the hidden dimension.
pub open spec fn hidden_input_rule(hidden: usize, s: Seq<Seq<usize>>) -> ShapeOutcome {
    if s[0].len() == 0 {
        Err("fused block requires a rank >= 1 input"@)
    } else if s[0].last() != hidden {
        Err("input last dim "@ + dec_text(s[0].last() as nat) + " != hidden_dim "@ + dec_text(hidden as nat))
    } else {
        Ok(seq![s[0]])
    }
}

/// Attention dimensions must be non-zero and `num_heads * head_dim` must
/// equal `hidden_dim`.
pub open spec fn attention_dims_rule(heads: usize, head_dim: usize, hidden: usize) -> Option<Seq<char>> {
    if heads == 0 || head_dim == 0 || hidden == 0 {
        Some("attention dimensions must be non-zero"@)
    } else if heads * head_dim != hidden {
        Some("num_heads * head_dim must equal hidden_dim "@ + dec_text(hidden as nat))
    } else {
        None
    }
}

fn hidden_input(hidden: usize, shapes: &[&[usize]]) -> (r: std::result::Result<Vec<Vec<usize>>, String>)
    requires
        shapes@.len() > 0,
    ensures
        hidden_input_rule(hidden, shapes_view(shapes)) == (match r {
            Ok(v) => Ok(vecs_view(v)),
            Err(e) => Err(e@),
        }),
{
    let a = shapes[0];
    if a.len() == 0 {
        return Err(owned("fused block requires a rank >= 1 input"));
    }
    if a[a.len() - 1] != hidden {
        let mut m = owned("input last dim ");
        push_dec(&mut m, a[a.len() - 1] as u64);
        m.append(" != hidden_dim ");
        push_dec(&mut m, hidden as u64);
        return Err(m);
    }
    let mut res: Vec<Vec<usize>> = Vec::new();
    res.push(shape_to_vec(a));
    proof {
        assert(vecs_view(res) =~= seq![a@]);
    }
    Ok(res)
}

fn attention_dims(heads: usize, head_dim: usize, hidden: usize) -> (r: Option<String>)
    ensures
        attention_dims_rule(heads, head_dim, hidden) == (match r {
            Some(e) => Some(e@),
            None => None,
        }),
{
    if heads == 0 || head_dim == 0 || hidden == 0 {
        return Some(owned("attention dimensions must be non-zero"));
    }
    let matches = match heads.checked_mul(head_dim) {
        Some(p) => p == hidden,
        None => false,
    };
    if !matches {
        let mut m = owned("num_heads * head_dim must equal hidden_dim ");
        push_dec(&mut m, hidden as u64);
        return Some(m);
    }
    None
}

// -------------------------------------------------------------- Dispatch

/// Patch grids small enough that the token count fits in `usize`.
pub open spec fn shapes_fit(op: Op, s: Seq<Seq<usize>>) -> bool {
    match op {
        Op::PatchEmbed { patch_size, .. } =>
            s.len() > 0 && s[0].len() >= 4 ==> patch_tokens(s[0][2], s[0][3], patch_size) <= usize::MAX,
        _ => true,
    }
}

/// The shape rule of every operation: the output shapes, or why the input
/// shapes are rejected.
#[verifier::opaque]
pub open spec fn infer_rule(op: Op, s: Seq<Seq<usize>>) -> ShapeOutcome {
    if s.len() == 0 {
        Err("No inputs provided"@)
    } else {
        match op {
            Op::MatMul => matmul_rule(s),
            Op::Transpose { perm } => transpose_rule(perm@, s),
            Op::PatchEmbed { patch_size, in_channels, embed_dim } =>
                patch_embed_rule(patch_size, in_channels, embed_dim, s),
            Op::Linear { out_features, .. } => linear_rule(out_features, s),
            Op::Split { dim, sections } => split_rule(dim, sections@, s),
            Op::Concat { axis } => concat_rule(axis, s),
            Op::Reshape { target } => reshape_rule(target@, s),
            Op::Add => elementwise_rule("add"@, s),
            Op::Mul => elementwise_rule("mul"@, s),
            Op::LayerNorm { eps } => layer_norm_rule(eps.bits, s),
            Op::Softmax { dim } => softmax_rule(dim, s),
            Op::Relu => unary_rule("relu"@, s),
            Op::Gelu => unary_rule("gelu"@, s),
            Op::Silu => unary_rule("silu"@, s),
            Op::ScalarMul { .. } => unary_rule("scalar_mul"@, s),
            Op::FusedAttentionBlock { num_heads, head_dim, hidden_dim, .. } =>
                match attention_dims_rule(num_heads, head_dim, hidden_dim) {
                    Some(e) => Err(e),
                    None => hidden_input_rule(hidden_dim, s),
                },
            Op::FusedFfnBlock { hidden_dim, intermediate_dim, .. } =>
                if hidden_dim == 0 || intermediate_dim == 0 {
                    Err("ffn dimensions must be non-zero"@)
                } else {
                    hidden_input_rule(hidden_dim, s)
                },
            Op::FusedTransformerLayer { num_heads, head_dim, hidden_dim, intermediate_dim, .. } =>
                match attention_dims_rule(num_heads, head_dim, hidden_dim) {
                    Some(e) => Err(e),
                    None => if intermediate_dim == 0 {
                        Err("ffn dimensions must be non-zero"@)
                    } else {
                        hidden_input_rule(hidden_dim, s)
                    },
                },
        }
    }
}

impl Op {
    /// Estimate output shapes given inputs.
    ///
    /// # Errors
    /// Returns [`Error::ShapeMismatch`], naming this operation and the
    /// reason given by [`infer_rule`], when the input shapes are rejected.
    pub fn infer_shapes(&self, input_shapes: &[&[usize]]) -> (r: Result<Vec<Vec<usize>>>)
        requires
            shapes_fit(*self, shapes_view(input_shapes)),
        ensures
            match r {
                Ok(v) => infer_rule(*self, shapes_view(input_shapes)) == Ok::<Seq<Seq<usize>>, Seq<char>>(vecs_view(v)),
                Err(Error::ShapeMismatch { op_name, reason }) =>
                    op_name@ == self.spec_name()
                        && infer_rule(*self, shapes_view(input_shapes)) == Err::<Seq<Seq<usize>>, Seq<char>>(reason@),
                Err(_) => false,
            },
    {
        reveal(infer_rule);
        let outcome = if input_shapes.len() == 0 {
            Err(owned("No inputs provided"))
        } else {
            match self {
                Op::MatMul => infer_matmul(input_shapes),
                Op::Transpose { perm } => infer_transpose(perm, input_shapes),
                Op::PatchEmbed { patch_size, in_channels, embed_dim } =>
                    infer_patch_embed(*patch_size, *in_channels, *embed_dim, input_shapes),
                Op::Linear { out_features, .. } => infer_linear(*out_features, input_shapes),
                Op::Split { dim, sections } => infer_split(*dim, sections, input_shapes),
                Op::Concat { axis } => infer_concat(*axis, input_shapes),
                Op::Reshape { target } => infer_reshape(target, input_shapes),
                Op::Add => infer_elementwise("add", input_shapes),
                Op::Mul => infer_elementwise("mul", input_shapes),
                Op::LayerNorm { eps } => {
                    if input_shapes.len() != 1 {
                        infer_unary("layer_norm", input_shapes)
                    } else if !eps.is_non_negative() {
                        Err(owned("layer_norm eps must be a non-negative number"))
                    } else if input_shapes[0].len() == 0 {
                        Err(owned("layer_norm requires a rank >= 1 input"))
                    } else {
                        infer_unary("layer_norm", input_shapes)
                    }
                },
                Op::Softmax { dim } => {
                    if input_shapes.len() != 1 {
                        infer_unary("softmax", input_shapes)
                    } else {
                        match normalize_axis(*dim, input_shapes[0].len()) {
                            None => {
                                let mut m = owned("softmax dim ");
                                push_int(&mut m, *dim);
                                m.append(" out of range for rank ");
                                push_dec(&mut m, input_shapes[0].len() as u64);
                                Err(m)
                            },
                            Some(_) => infer_unary("softmax", input_shapes),
                        }
                    }
                },
                Op::Relu => infer_unary("relu", input_shapes),
                Op::Gelu => infer_unary("gelu", input_shapes),
                Op::Silu => infer_unary("silu", input_shapes),
                Op::ScalarMul { .. } => infer_unary("scalar_mul", input_shapes),
                Op::FusedAttentionBlock { num_heads, head_dim, hidden_dim, .. } => {
                    match attention_dims(*num_heads, *head_dim, *hidden_dim) {
                        Some(e) => Err(e),
                        None => hidden_input(*hidden_dim, input_shapes),
                    }
                },
                Op::FusedFfnBlock { hidden_dim, intermediate_dim, .. } => {
                    if *hidden_dim == 0 || *intermediate_dim == 0 {
                        Err(owned("ffn dimensions must be non-zero"))
                    } else {
                        hidden_input(*hidden_dim, input_shapes)
                    }
                },
                Op::FusedTransformerLayer { num_heads, head_dim, hidden_dim, intermediate_dim, .. } => {
                    match attention_dims(*num_heads, *head_dim, *hidden_dim) {
                        Some(e) => Err(e),
                        None => if *intermediate_dim == 0 {
                            Err(owned("ffn dimensions must be non-zero"))
                        } else {
                            hidden_input(*hidden_dim, input_shapes)
                        },
                    }
                },
            }
        };
        match outcome {
            Ok(v) => Ok(v),
            Err(reason) => Err(Error::ShapeMismatch { op_name: owned(self.name()), reason }),
        }
    }
}

proof fn lemma_perm_scan_none(perm: Seq<usize>, n: usize, i: nat)
    requires
        i <= perm.len(),
    ensures
        perm_scan(perm, n, i) is None <==> forall|j: int| i <= j < perm.len() ==>
            #[trigger] perm[j] < n && !perm.subrange(0, j).contains(perm[j]),
    decreases perm.len() - i,
{
    if i < perm.len() {
        lemma_perm_scan_none(perm, n, i + 1);
    }
}

/// A transpose accepts its input exactly when `perm` is a permutation of
/// the input's axes: as long as the rank, every entry an axis, no entry
/// twice. Output dim `i` is then input dim `perm[i]`, for every `i`.
pub proof fn lemma_transpose_law(perm: Vec<usize>, s: Seq<Seq<usize>>)
    requires
        s.len() > 0,
        s[0].len() <= usize::MAX,
    ensures
        infer_rule(Op::Transpose { perm }, s) is Ok <==> (perm@.len() == s[0].len()
            && (forall|j: int| 0 <= j < perm@.len() ==> #[trigger] perm@[j] < s[0].len())
            && perm@.no_duplicates()),
        infer_rule(Op::Transpose { perm }, s) is Ok ==> ({
            let out = infer_rule(Op::Transpose { perm }, s)->Ok_0;
            &&& out.len() == 1
            &&& out[0].len() == s[0].len()
            &&& forall|i: int| 0 <= i < s[0].len() ==> #[trigger] out[0][i] == s[0][perm@[i] as int]
        }),
{
    reveal(infer_rule);
    let p = perm@;
    let a = s[0];
    if p.len() == a.len() {
        lemma_perm_scan_none(p, a.len() as usize, 0);
        assert(p.no_duplicates() <==> forall|j: int| 0 <= j < p.len() ==> !p.subrange(0, j).contains(#[trigger] p[j])) by {
            if p.no_duplicates() {
                assert forall|j: int| 0 <= j < p.len() implies !p.subrange(0, j).contains(#[trigger] p[j]) by {
                    if p.subrange(0, j).contains(p[j]) {
                        let k = choose|k: int| 0 <= k < p.subrange(0, j).len() && p.subrange(0, j)[k] == p[j];
                        assert(p[k] == p[j]);
                    }
                }
            }
            if forall|j: int| 0 <= j < p.len() ==> !p.subrange(0, j).contains(#[trigger] p[j]) {
                assert forall|x: int, y: int| 0 <= x < p.len() && 0 <= y < p.len() && x != y implies p[x] != p[y] by {
                    let (lo, hi) = if x < y { (x, y) } else { (y, x) };
                    assert(!p.subrange(0, hi).contains(p[hi]));
                    assert(p.subrange(0, hi)[lo] == p[lo]);
                }
            }
        }
        assert((a.len() as usize) as int == a.len());
    }
}

} // verus!
