//! What holds of every expansion: text without references passes through,
//! a second expansion changes nothing once nothing is left to resolve, and
//! each reference the scan meets is either replaced as its shape says or kept
//! and reported.
use crate::grammar::{
    brace_at, lemma_span_bounds, name_at, object_at, reference_at, replacement, span_end, Form,
};
use crate::substitute::{expand, expand_from, next_pos, piece_at, unresolved, unresolved_from};
use vstd::prelude::*;

verus! {

/// The scan of `s` that starts at position `from` stops at position `j`.
pub open spec fn visits(s: Seq<char>, from: int, j: int) -> bool
    decreases s.len() - from,
    via visits_decreases
{
    if from == j {
        true
    } else if 0 <= from < j && from < s.len() {
        visits(s, next_pos(s, from), j)
    } else {
        false
    }
}

#[via_fn]
proof fn visits_decreases(s: Seq<char>, from: int, j: int) {
    if 0 <= from < s.len() && reference_at(s, from) {
        lemma_span_bounds(s, from);
    }
}

/// No reference at which the scan of `s` stops has a name that `env` holds.
pub open spec fn nothing_to_resolve(s: Seq<char>, env: Map<Seq<char>, Seq<char>>) -> bool {
    forall|k: int|
        #![trigger visits(s, 0, k), reference_at(s, k)]
        visits(s, 0, k) && k < s.len() && reference_at(s, k) ==> !env.contains_key(
            name_at(s, k),
        )
}

proof fn lemma_identity_from(s: Seq<char>, env: Map<Seq<char>, Seq<char>>, i: int)
    requires
        0 <= i <= s.len(),
        visits(s, 0, i),
        nothing_to_resolve(s, env),
    ensures
        expand_from(s, env, i) == s.subrange(i, s.len() as int),
    decreases s.len() - i,
{
    if i < s.len() {
        if reference_at(s, i) {
            lemma_span_bounds(s, i);
        }
        let next = next_pos(s, i);
        lemma_visits_step(s, 0, i);
        lemma_identity_from(s, env, next);
        if reference_at(s, i) {
            assert(s.subrange(i, s.len() as int) =~= s.subrange(i, next) + s.subrange(
                next,
                s.len() as int,
            ));
        } else {
            assert(s.subrange(i, s.len() as int) =~= seq![s[i]] + s.subrange(
                next,
                s.len() as int,
            ));
        }
    } else {
        assert(s.subrange(i, s.len() as int) =~= Seq::<char>::empty());
    }
}

/// A scan that stops at `i` stops at the position that follows `i` too.
proof fn lemma_visits_step(s: Seq<char>, from: int, i: int)
    requires
        0 <= from <= i < s.len(),
        visits(s, from, i),
    ensures
        visits(s, from, next_pos(s, i)),
    decreases s.len() - from,
{
    if reference_at(s, i) {
        lemma_span_bounds(s, i);
    }
    if reference_at(s, from) {
        lemma_span_bounds(s, from);
    }
    if from < i {
        lemma_visits_step(s, next_pos(s, from), i);
    }
}

/// Text in which no reference starts comes out of the expansion unchanged.
pub proof fn lemma_no_reference_unchanged(s: Seq<char>, env: Map<Seq<char>, Seq<char>>)
    requires
        forall|k: int| 0 <= k < s.len() ==> !reference_at(s, k),
    ensures
        expand(s, env) == s,
{
    assert(nothing_to_resolve(s, env));
    lemma_identity_from(s, env, 0);
    assert(s.subrange(0, s.len() as int) =~= s);
}

/// Text whose scan meets no reference that `env` resolves comes out of the
/// expansion unchanged.
pub proof fn lemma_nothing_to_resolve_unchanged(s: Seq<char>, env: Map<Seq<char>, Seq<char>>)
    requires
        nothing_to_resolve(s, env),
    ensures
        expand(s, env) == s,
{
    lemma_identity_from(s, env, 0);
    assert(s.subrange(0, s.len() as int) =~= s);
}

/// Expanding a second time gives the first result again, wherever the scan of
/// that result meets no reference that the environment resolves (a value that
/// holds a reference, or one that completes a reference with the text beside
/// it, would be resolved by the second run).
pub proof fn lemma_expand_twice(s: Seq<char>, env: Map<Seq<char>, Seq<char>>)
    requires
        nothing_to_resolve(expand(s, env), env),
    ensures
        expand(expand(s, env), env) == expand(s, env),
{
    lemma_nothing_to_resolve_unchanged(expand(s, env), env);
}

/// What the scan produces before stopping at `j`.
proof fn lemma_output_prefix(s: Seq<char>, env: Map<Seq<char>, Seq<char>>, i: int, j: int) -> (p:
    Seq<char>)
    requires
        0 <= i,
        visits(s, i, j),
    ensures
        expand_from(s, env, i) == p + expand_from(s, env, j),
    decreases s.len() - i,
{
    if i == j {
        assert(expand_from(s, env, i) =~= Seq::<char>::empty() + expand_from(s, env, j));
        Seq::empty()
    } else {
        let next = next_pos(s, i);
        if reference_at(s, i) {
            lemma_span_bounds(s, i);
        }
        let q = lemma_output_prefix(s, env, next, j);
        let head = if reference_at(s, i) {
            piece_at(s, env, i)
        } else {
            seq![s[i]]
        };
        assert(expand_from(s, env, i) == head + expand_from(s, env, next));
        assert(expand_from(s, env, i) =~= (head + q) + expand_from(s, env, j));
        head + q
    }
}

/// The output at a reference that the scan of `s` meets: what the scan made of
/// the text before it, then the reference's piece, then the expansion of the
/// rest.
proof fn lemma_piece_in_output(s: Seq<char>, env: Map<Seq<char>, Seq<char>>, j: int) -> (p: Seq<
    char,
>)
    requires
        visits(s, 0, j),
        0 <= j < s.len(),
        reference_at(s, j),
    ensures
        expand(s, env) == p + piece_at(s, env, j) + expand_from(s, env, span_end(s, j)),
{
    let p = lemma_output_prefix(s, env, 0, j);
    assert(expand(s, env) =~= p + piece_at(s, env, j) + expand_from(s, env, span_end(s, j)));
    p
}

/// Each reference that the scan meets and that `env` does not resolve stands in
/// the output character for character, followed by the expansion of the text
/// after it.
pub proof fn lemma_unresolved_kept(s: Seq<char>, env: Map<Seq<char>, Seq<char>>, j: int)
    requires
        visits(s, 0, j),
        0 <= j < s.len(),
        reference_at(s, j),
        !env.contains_key(name_at(s, j)),
    ensures
        exists|p: Seq<char>|
            expand(s, env) == p + s.subrange(j, span_end(s, j)) + expand_from(
                s,
                env,
                span_end(s, j),
            ),
{
    let p = lemma_piece_in_output(s, env, j);
}

/// Each brace reference that the scan meets and that `env` resolves is replaced
/// by the value exactly, followed by the expansion of the text after it.
pub proof fn lemma_brace_value(s: Seq<char>, env: Map<Seq<char>, Seq<char>>, j: int)
    requires
        visits(s, 0, j),
        0 <= j < s.len(),
        brace_at(s, j),
        env.contains_key(name_at(s, j)),
    ensures
        exists|p: Seq<char>|
            expand(s, env) == p + env[name_at(s, j)] + expand_from(s, env, span_end(s, j)),
{
    let p = lemma_piece_in_output(s, env, j);
}

/// Each object reference that the scan meets and that `env` resolves is
/// replaced by the value between one leading and one trailing double quote,
/// followed by the expansion of the text after it.
pub proof fn lemma_object_quoted(s: Seq<char>, env: Map<Seq<char>, Seq<char>>, j: int)
    requires
        visits(s, 0, j),
        0 <= j < s.len(),
        object_at(s, j),
        !brace_at(s, j),
        env.contains_key(name_at(s, j)),
    ensures
        exists|p: Seq<char>|
            expand(s, env) == p + seq!['"'] + env[name_at(s, j)] + seq!['"'] + expand_from(
                s,
                env,
                span_end(s, j),
            ),
{
    let p = lemma_piece_in_output(s, env, j);
    assert(piece_at(s, env, j) == replacement(Form::Object, env[name_at(s, j)]));
    assert(p + seq!['"'] + env[name_at(s, j)] + seq!['"'] + expand_from(s, env, span_end(s, j))
        =~= p + piece_at(s, env, j) + expand_from(s, env, span_end(s, j)));
}

proof fn lemma_reported_from(s: Seq<char>, env: Map<Seq<char>, Seq<char>>, i: int, j: int)
    requires
        0 <= i,
        visits(s, i, j),
        0 <= j < s.len(),
        reference_at(s, j),
        !env.contains_key(name_at(s, j)),
    ensures
        unresolved_from(s, env, i).contains(name_at(s, j)),
    decreases s.len() - i,
{
    if i == j {
        assert(unresolved_from(s, env, i)[0] == name_at(s, j));
    } else {
        let next = next_pos(s, i);
        if reference_at(s, i) {
            lemma_span_bounds(s, i);
        }
        lemma_reported_from(s, env, next, j);
        let rest = unresolved_from(s, env, next);
        let k = choose|k: int| 0 <= k < rest.len() && rest[k] == name_at(s, j);
        if reference_at(s, i) && !env.contains_key(name_at(s, i)) {
            assert(unresolved_from(s, env, i)[k + 1] == name_at(s, j));
        } else {
            assert(unresolved_from(s, env, i)[k] == name_at(s, j));
        }
    }
}

/// The name of each reference that the scan meets and that `env` does not
/// resolve is among the names reported.
pub proof fn lemma_unresolved_reported(s: Seq<char>, env: Map<Seq<char>, Seq<char>>, j: int)
    requires
        visits(s, 0, j),
        0 <= j < s.len(),
        reference_at(s, j),
        !env.contains_key(name_at(s, j)),
    ensures
        unresolved(s, env).contains(name_at(s, j)),
{
    lemma_reported_from(s, env, 0, j);
}

} // verus!
