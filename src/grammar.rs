//! The two reference shapes that the substituter recognises, stated over the
//! characters of the text, with executable recognisers proved against them.
use vstd::prelude::*;

verus! {

/// Which of the two reference shapes a span has.
#[derive(Clone, Copy, Debug, PartialEq, Eq, Structural)]
pub enum Form {
    /// `${NAME}`
    Brace,
    /// `{ env = "NAME" }`
    Object,
}

/// The nine characters that open an object reference: `{ env = "`.
pub open spec fn object_opener() -> Seq<char> {
    seq!['{', ' ', 'e', 'n', 'v', ' ', '=', ' ', '"']
}

/// The first position at or after `from` that holds `c`, or the length of `s`
/// when there is none.
pub open spec fn find_from(s: Seq<char>, from: int, c: char) -> int
    decreases s.len() - from,
{
    if from < 0 || from >= s.len() {
        s.len() as int
    } else if s[from] == c {
        from
    } else {
        find_from(s, from + 1, c)
    }
}

/// `${` stands at position `i`.
pub open spec fn brace_at(s: Seq<char>, i: int) -> bool {
    0 <= i && i + 1 < s.len() && s[i] == '$' && s[i + 1] == '{'
}

/// `{ env = "` stands at position `i`, and the first `"` after it is followed
/// by ` }`.
pub open spec fn object_at(s: Seq<char>, i: int) -> bool {
    &&& 0 <= i
    &&& i + 9 <= s.len()
    &&& s.subrange(i, i + 9) == object_opener()
    &&& find_from(s, i + 9, '"') + 2 < s.len()
    &&& s[find_from(s, i + 9, '"') + 1] == ' '
    &&& s[find_from(s, i + 9, '"') + 2] == '}'
}

/// A reference of either shape starts at position `i`; a brace reference is
/// tried first.
pub open spec fn reference_at(s: Seq<char>, i: int) -> bool {
    brace_at(s, i) || object_at(s, i)
}

/// The shape of the reference at `i`.
pub open spec fn form_at(s: Seq<char>, i: int) -> Form {
    if brace_at(s, i) {
        Form::Brace
    } else {
        Form::Object
    }
}

/// Where the variable name of the reference at `i` starts.
pub open spec fn name_start(s: Seq<char>, i: int) -> int {
    if brace_at(s, i) {
        i + 2
    } else {
        i + 9
    }
}

/// Where the variable name of the reference at `i` ends: at the first `}` of a
/// brace reference (or the end of the text when there is none), at the first
/// `"` of an object reference.
pub open spec fn name_end(s: Seq<char>, i: int) -> int {
    if brace_at(s, i) {
        find_from(s, i + 2, '}')
    } else {
        find_from(s, i + 9, '"')
    }
}

/// The variable name of the reference at `i`.
pub open spec fn name_at(s: Seq<char>, i: int) -> Seq<char> {
    s.subrange(name_start(s, i), name_end(s, i))
}

/// Where the whole span of the reference at `i` ends (exclusive).
pub open spec fn span_end(s: Seq<char>, i: int) -> int {
    if brace_at(s, i) {
        if name_end(s, i) < s.len() {
            name_end(s, i) + 1
        } else {
            s.len() as int
        }
    } else {
        name_end(s, i) + 3
    }
}

/// What a resolved reference of shape `form` becomes: the value itself for a
/// brace reference, the value between two double quotes for an object one.
pub open spec fn replacement(form: Form, value: Seq<char>) -> Seq<char> {
    match form {
        Form::Brace => value,
        Form::Object => seq!['"'] + value + seq!['"'],
    }
}

/// `find_from` stops at the first `c` from `from` on, inside the text.
pub proof fn lemma_find_from_bounds(s: Seq<char>, from: int, c: char)
    requires
        0 <= from <= s.len(),
    ensures
        from <= find_from(s, from, c) <= s.len(),
        find_from(s, from, c) < s.len() ==> s[find_from(s, from, c)] == c,
        forall|k: int| from <= k < find_from(s, from, c) ==> s[k] != c,
    decreases s.len() - from,
{
    if from < s.len() && s[from] != c {
        lemma_find_from_bounds(s, from + 1, c);
    }
}

/// A located reference span is well inside the text and ends after it starts.
pub proof fn lemma_span_bounds(s: Seq<char>, i: int)
    requires
        reference_at(s, i),
    ensures
        i < name_start(s, i) <= name_end(s, i) < span_end(s, i) <= s.len()
            || (brace_at(s, i) && name_end(s, i) == s.len() && span_end(s, i) == s.len()
            && i < name_start(s, i) <= s.len()),
        i < span_end(s, i) <= s.len(),
{
    if brace_at(s, i) {
        lemma_find_from_bounds(s, i + 2, '}');
    } else {
        lemma_find_from_bounds(s, i + 9, '"');
    }
}

/// The first position at or after `from` in `s` that holds `c`, or `s.len()`.
pub fn find_char(s: &Vec<char>, from: usize, c: char) -> (r: usize)
    requires
        from <= s.len(),
    ensures
        r as int == find_from(s@, from as int, c),
        from <= r <= s.len(),
{
    let mut k: usize = from;
    while k < s.len() && s[k] != c
        invariant
            from <= k <= s.len(),
            find_from(s@, k as int, c) == find_from(s@, from as int, c),
        decreases s.len() - k,
    {
        k = k + 1;
    }
    k
}

/// Whether `${` stands at position `i`.
pub fn is_brace_at(s: &Vec<char>, i: usize) -> (r: bool)
    ensures
        r == brace_at(s@, i as int),
{
    i < s.len() && s.len() - i > 1 && s[i] == '$' && s[i + 1] == '{'
}

/// Whether `{ env = "` stands at position `i`.
fn is_object_opener_at(s: &Vec<char>, i: usize) -> (r: bool)
    ensures
        r == (i + 9 <= s.len() && s@.subrange(i as int, i + 9) == object_opener()),
{
    if i >= s.len() || s.len() - i < 9 {
        return false;
    }
    let r = s[i] == '{' && s[i + 1] == ' ' && s[i + 2] == 'e' && s[i + 3] == 'n' && s[i + 4]
        == 'v' && s[i + 5] == ' ' && s[i + 6] == '=' && s[i + 7] == ' ' && s[i + 8] == '"';
    assert(r == (s@.subrange(i as int, i + 9) =~= object_opener()));
    r
}

/// Whether a complete object reference starts at position `i`.
pub fn is_object_at(s: &Vec<char>, i: usize) -> (r: bool)
    ensures
        r == object_at(s@, i as int),
{
    if !is_object_opener_at(s, i) {
        return false;
    }
    let q = find_char(s, i + 9, '"');
    s.len() - q > 2 && s[q + 1] == ' ' && s[q + 2] == '}'
}

} // verus!
