//! The substituter: one left-to-right scan of the text that replaces each
//! resolvable reference and keeps each unresolved one as it stands.
use crate::environment::Environment;
use crate::grammar::{
    find_char, form_at, is_brace_at, is_object_at, lemma_span_bounds, name_at, reference_at,
    replacement, span_end,
};
use vstd::prelude::*;

verus! {

/// The position at which the scan goes on after looking at position `i`: past
/// the whole span of a reference, else at the next character.
pub open spec fn next_pos(s: Seq<char>, i: int) -> int {
    if reference_at(s, i) {
        span_end(s, i)
    } else {
        i + 1
    }
}

/// What the reference at `i` stands for in the output: its replacement where
/// the environment holds its name, its own text where it does not.
pub open spec fn piece_at(s: Seq<char>, env: Map<Seq<char>, Seq<char>>, i: int) -> Seq<char> {
    if env.contains_key(name_at(s, i)) {
        replacement(form_at(s, i), env[name_at(s, i)])
    } else {
        s.subrange(i, span_end(s, i))
    }
}

/// The output that the scan produces from position `i` of `s` on.
pub open spec fn expand_from(s: Seq<char>, env: Map<Seq<char>, Seq<char>>, i: int) -> Seq<char>
    decreases s.len() - i,
    via expand_from_decreases
{
    if i < 0 || i >= s.len() {
        Seq::empty()
    } else if reference_at(s, i) {
        piece_at(s, env, i) + expand_from(s, env, span_end(s, i))
    } else {
        seq![s[i]] + expand_from(s, env, i + 1)
    }
}

#[via_fn]
proof fn expand_from_decreases(s: Seq<char>, env: Map<Seq<char>, Seq<char>>, i: int) {
    if 0 <= i < s.len() && reference_at(s, i) {
        lemma_span_bounds(s, i);
    }
}

/// The names of the unresolved references that the scan meets from position
/// `i` on, in the order met.
pub open spec fn unresolved_from(s: Seq<char>, env: Map<Seq<char>, Seq<char>>, i: int) -> Seq<
    Seq<char>,
>
    decreases s.len() - i,
    via unresolved_from_decreases
{
    if i < 0 || i >= s.len() {
        Seq::empty()
    } else if reference_at(s, i) {
        if env.contains_key(name_at(s, i)) {
            unresolved_from(s, env, span_end(s, i))
        } else {
            seq![name_at(s, i)] + unresolved_from(s, env, span_end(s, i))
        }
    } else {
        unresolved_from(s, env, i + 1)
    }
}

#[via_fn]
proof fn unresolved_from_decreases(s: Seq<char>, env: Map<Seq<char>, Seq<char>>, i: int) {
    if 0 <= i < s.len() && reference_at(s, i) {
        lemma_span_bounds(s, i);
    }
}

/// The text `s` with its references expanded against `env`.
pub open spec fn expand(s: Seq<char>, env: Map<Seq<char>, Seq<char>>) -> Seq<char> {
    expand_from(s, env, 0)
}

/// The names of the unresolved references in `s`, one per reference met.
pub open spec fn unresolved(s: Seq<char>, env: Map<Seq<char>, Seq<char>>) -> Seq<Seq<char>> {
    unresolved_from(s, env, 0)
}

/// The character sequences of a list of strings.
pub open spec fn views_of(v: Seq<String>) -> Seq<Seq<char>> {
    v.map_values(|x: String| x@)
}

/// The outcome of one substitution: the expanded text, and the name of each
/// unresolved reference met, in order, for the caller to report.
pub struct Expansion {
    pub text: String,
    pub unresolved: Vec<String>,
}

/// The characters of `s`, in order.
pub fn chars_of(s: &str) -> (r: Vec<char>)
    ensures
        r@ == s@,
{
    let mut r: Vec<char> = Vec::new();
    for c in it: s.chars()
        invariant
            r@ == it.seq().take(it.index() as int),
    {
        r.push(c);
    }
    r
}

/// Expands every reference in `input` against `env` in one left-to-right scan.
/// A reference whose name `env` holds is replaced (see `replacement`) and the
/// scan goes on after it; one whose name it does not hold is kept character
/// for character, its name is recorded, and the scan goes on after it.
pub fn substitute(input: &str, env: &Environment) -> (r: Expansion)
    ensures
        r.text@ == expand(input@, env@),
        views_of(r.unresolved@) == unresolved(input@, env@),
{
    let cs = chars_of(input);
    let n = cs.len();
    let ghost s = input@;
    let ghost m = env@;
    let mut out = String::new();
    let mut unresolved_names: Vec<String> = Vec::new();
    let mut lit: usize = 0;
    let mut i: usize = 0;
    while i < n
        invariant
            cs@ == s,
            s == input@,
            m == env@,
            n == s.len(),
            lit <= i <= n,
            out@ + s.subrange(lit as int, i as int) + expand_from(s, m, i as int) == expand(s, m),
            views_of(unresolved_names@) + unresolved_from(s, m, i as int) == unresolved(s, m),
        decreases n - i,
    {
        let ghost out0 = out@;
        let ghost lit0 = lit as int;
        let ghost i0 = i as int;
        let brace = is_brace_at(&cs, i);
        if brace || is_object_at(&cs, i) {
            proof {
                lemma_span_bounds(s, i as int);
            }
            let start: usize;
            let stop: usize;
            let end: usize;
            if brace {
                start = i + 2;
                stop = find_char(&cs, start, '}');
                end = if stop < n {
                    stop + 1
                } else {
                    n
                };
            } else {
                start = i + 9;
                stop = find_char(&cs, start, '"');
                end = stop + 3;
            }
            assert(end == span_end(s, i as int));
            let name = input.substring_char(start, stop);
            assert(name@ == name_at(s, i as int));
            match env.get(name) {
                Some(value) => {
                    assert(piece_at(s, m, i0) == replacement(form_at(s, i0), value@));
                    out.append(input.substring_char(lit, i));
                    if brace {
                        out.append(value.as_str());
                    } else {
                        let quote = "\"";
                        proof {
                            reveal_strlit("\"");
                        }
                        assert(quote@ =~= seq!['"']);
                        out.append(quote);
                        out.append(value.as_str());
                        out.append(quote);
                    }
                    lit = end;
                    assert(out@ =~= out0 + s.subrange(lit0, i0) + piece_at(s, m, i0));
                    assert(s.subrange(end as int, end as int) =~= Seq::<char>::empty());
                    assert(out@ + s.subrange(end as int, end as int) + expand_from(s, m, end as int)
                        =~= out0 + s.subrange(lit0, i0) + (piece_at(s, m, i0) + expand_from(
                        s,
                        m,
                        end as int,
                    )));
                },
                None => {
                    let ghost names0 = unresolved_names@;
                    unresolved_names.push(String::from_str(name));
                    assert(views_of(unresolved_names@) =~= views_of(names0).push(name@));
                    assert(views_of(unresolved_names@) + unresolved_from(s, m, end as int)
                        =~= views_of(names0) + (seq![name@] + unresolved_from(s, m, end as int)));
                    assert(s.subrange(lit0, end as int) =~= s.subrange(lit0, i0) + piece_at(
                        s,
                        m,
                        i0,
                    ));
                    assert(out@ + s.subrange(lit0, end as int) + expand_from(s, m, end as int)
                        =~= out0 + s.subrange(lit0, i0) + (piece_at(s, m, i0) + expand_from(
                        s,
                        m,
                        end as int,
                    )));
                },
            }
            i = end;
        } else {
            i = i + 1;
            assert(s.subrange(lit0, i as int) =~= s.subrange(lit0, i0) + seq![s[i0]]);
            assert(out@ + s.subrange(lit0, i as int) + expand_from(s, m, i as int) =~= out0
                + s.subrange(lit0, i0) + (seq![s[i0]] + expand_from(s, m, i as int)));
        }
    }
    assert(expand_from(s, m, n as int) =~= Seq::<char>::empty());
    assert(unresolved_from(s, m, n as int) =~= Seq::<Seq<char>>::empty());
    assert(views_of(unresolved_names@) =~= unresolved(s, m));
    out.append(input.substring_char(lit, n));
    Expansion { text: out, unresolved: unresolved_names }
}

/// Expands every reference in `input` against `env`, leaving unresolved ones
/// as they stand.
pub fn replace_env_vars(input: &str, env: &Environment) -> (r: String)
    ensures
        r@ == expand(input@, env@),
{
    substitute(input, env).text
}

} // verus!
