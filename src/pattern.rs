//! Route templates: compiling a template into a sequence of matchers, and
//! matching a path against it.
//!
//! Template syntax: `:name` captures one non-empty path segment (no `/`) under
//! `name`, where `name` is the longest run of alphanumeric characters and
//! underscores after the colon; `*` captures the rest of the path, unnamed;
//! every other character matches itself. A match is anchored at both ends, and
//! captures are chosen greedily from left to right (each capture takes the
//! longest text that still lets the rest of the template match).
use vstd::prelude::*;
use crate::text::{alphanumeric, is_alphanumeric, chars_of, text_of, char_seqs};
use crate::text_map::{TextMap, zip_pairs};

verus! {

/// One element of a compiled template.
#[derive(Clone, Copy, Debug, PartialEq, Eq, Structural)]
pub enum Piece {
    /// A character that the path must hold at this place.
    Literal(char),
    /// A named capture of one non-empty segment.
    Param,
    /// An unnamed capture of the remainder of the path.
    Wildcard,
}

pub open spec fn is_name_char(c: char) -> bool {
    alphanumeric(c) || c == '_'
}

/// The end of the run of name characters in `t` that starts at `i`.
pub open spec fn name_end(t: Seq<char>, i: int) -> int
    decreases t.len() - i,
{
    if 0 <= i < t.len() && is_name_char(t[i]) {
        name_end(t, i + 1)
    } else {
        i
    }
}

pub proof fn lemma_name_end_bounds(t: Seq<char>, i: int)
    requires
        0 <= i <= t.len(),
    ensures
        i <= name_end(t, i) <= t.len(),
    decreases t.len() - i,
{
    if i < t.len() && is_name_char(t[i]) {
        lemma_name_end_bounds(t, i + 1);
    }
}

/// The pieces and the parameter names that the template suffix `t[i..]` compiles to.
pub open spec fn compile_from(t: Seq<char>, i: int) -> (Seq<Piece>, Seq<Seq<char>>)
    decreases t.len() - i,
    via compile_from_decreases
{
    if i < 0 || i >= t.len() {
        (seq![], seq![])
    } else if t[i] == ':' {
        let e = name_end(t, i + 1);
        let rest = compile_from(t, e);
        (seq![Piece::Param] + rest.0, seq![t.subrange(i + 1, e)] + rest.1)
    } else if t[i] == '*' {
        let rest = compile_from(t, i + 1);
        (seq![Piece::Wildcard] + rest.0, rest.1)
    } else {
        let rest = compile_from(t, i + 1);
        (seq![Piece::Literal(t[i])] + rest.0, rest.1)
    }
}

#[via_fn]
proof fn compile_from_decreases(t: Seq<char>, i: int) {
    if 0 <= i < t.len() && t[i] == ':' {
        lemma_name_end_bounds(t, i + 1);
    }
}

proof fn lemma_compile_literal(t: Seq<char>, i: int, c: char, pre: Seq<Piece>)
    requires
        0 <= i < t.len(),
        t[i] == c,
        c != ':',
        c != '*',
    ensures
        compile_from(t, i).1 == compile_from(t, i + 1).1,
        pre.push(Piece::Literal(c)) + compile_from(t, i + 1).0 == pre + compile_from(t, i).0,
        compile_from(t, i).0.len() == compile_from(t, i + 1).0.len() + 1,
        compile_from(t, i).0[0] == Piece::Literal(c),
        forall|j: int|
            0 < j < compile_from(t, i).0.len() ==> #[trigger] compile_from(t, i).0[j] == compile_from(
                t,
                i + 1,
            ).0[j - 1],
{
    let r = compile_from(t, i + 1);
    assert(compile_from(t, i) == (seq![Piece::Literal(c)] + r.0, r.1));
    assert(pre.push(Piece::Literal(c)) + r.0 =~= pre + (seq![Piece::Literal(c)] + r.0));
}

/// The pieces of a template.
pub open spec fn compile_pieces(t: Seq<char>) -> Seq<Piece> {
    compile_from(t, 0).0
}

/// The parameter names of a template, in declaration order.
pub open spec fn compile_names(t: Seq<char>) -> Seq<Seq<char>> {
    compile_from(t, 0).1
}

/// The end of the segment of `p` that starts at `j`: the first `/` at or after `j`, or the end.
pub open spec fn segment_end(p: Seq<char>, j: int) -> int
    decreases p.len() - j,
{
    if 0 <= j < p.len() && p[j] != '/' {
        segment_end(p, j + 1)
    } else {
        j
    }
}

/// The longest text that the piece at `ti` may capture at path position `pj`:
/// a parameter takes 1 to `budget` characters, a wildcard 0 to `budget`.
pub open spec fn budget(ps: Seq<Piece>, ti: int, p: Seq<char>, pj: int) -> int {
    if 0 <= ti < ps.len() {
        match ps[ti] {
            Piece::Param => segment_end(p, pj) - pj,
            Piece::Wildcard => p.len() - pj,
            Piece::Literal(_) => 0,
        }
    } else {
        0
    }
}

/// Matches the pieces `ps[ti..]` against the path suffix `p[pj..]`, where the
/// piece at `ti`, if it captures, tries the lengths allowed by `k` from the
/// longest down. Returns the captured texts in order, or `None`.
pub open spec fn match_from(ps: Seq<Piece>, ti: int, p: Seq<char>, pj: int, k: int) -> Option<
    Seq<Seq<char>>,
>
    decreases ps.len() - ti, k,
{
    if ti < 0 || pj < 0 || pj > p.len() {
        None
    } else if ti >= ps.len() {
        if pj == p.len() {
            Some(seq![])
        } else {
            None
        }
    } else {
        match ps[ti] {
            Piece::Literal(c) => {
                if pj < p.len() && p[pj] == c {
                    match_from(ps, ti + 1, p, pj + 1, budget(ps, ti + 1, p, pj + 1))
                } else {
                    None
                }
            },
            Piece::Param => {
                if k <= 0 {
                    None
                } else {
                    match match_from(ps, ti + 1, p, pj + k, budget(ps, ti + 1, p, pj + k)) {
                        Some(caps) => Some(seq![p.subrange(pj, pj + k)] + caps),
                        None => match_from(ps, ti, p, pj, k - 1),
                    }
                }
            },
            Piece::Wildcard => {
                if k < 0 {
                    None
                } else {
                    match match_from(ps, ti + 1, p, pj + k, budget(ps, ti + 1, p, pj + k)) {
                        Some(caps) => Some(seq![p.subrange(pj, pj + k)] + caps),
                        None => if k == 0 {
                            None
                        } else {
                            match_from(ps, ti, p, pj, k - 1)
                        },
                    }
                }
            },
        }
    }
}

/// The captures of a whole path against compiled pieces, or `None` if it does not match.
pub open spec fn match_pieces(ps: Seq<Piece>, p: Seq<char>) -> Option<Seq<Seq<char>>> {
    match_from(ps, 0, p, 0, budget(ps, 0, p, 0))
}

/// For each capture of `ps`, in order, whether it is a named one.
pub open spec fn capture_kinds(ps: Seq<Piece>) -> Seq<bool>
    decreases ps.len(),
{
    if ps.len() == 0 {
        seq![]
    } else {
        let rest = capture_kinds(ps.drop_first());
        match ps[0] {
            Piece::Param => seq![true] + rest,
            Piece::Wildcard => seq![false] + rest,
            Piece::Literal(_) => rest,
        }
    }
}

/// The captures whose kind is `named`, in order.
pub open spec fn select_captures(kinds: Seq<bool>, caps: Seq<Seq<char>>, named: bool) -> Seq<
    Seq<char>,
>
    decreases caps.len(),
{
    if caps.len() == 0 || kinds.len() == 0 {
        seq![]
    } else {
        let rest = select_captures(kinds.drop_first(), caps.drop_first(), named);
        if kinds[0] == named {
            seq![caps[0]] + rest
        } else {
            rest
        }
    }
}

/// Whether a template holds no capture marker.
pub open spec fn is_literal_template(t: Seq<char>) -> bool {
    forall|i: int| 0 <= i < t.len() ==> t[i] != ':' && t[i] != '*'
}

proof fn lemma_compile_literal_template(t: Seq<char>, i: int)
    requires
        is_literal_template(t),
        0 <= i <= t.len(),
    ensures
        compile_from(t, i).0.len() == t.len() - i,
        forall|j: int|
            0 <= j < t.len() - i ==> (#[trigger] compile_from(t, i).0[j] is Literal)
                && compile_from(t, i).0[j]->Literal_0 == t[i + j],
    decreases t.len() - i,
{
    if i < t.len() {
        lemma_compile_literal_template(t, i + 1);
        let c = t[i];
        lemma_compile_literal(t, i, c, seq![]);
        assert forall|j: int| 0 <= j < t.len() - i implies (#[trigger] compile_from(t, i).0[j] is Literal)
            && compile_from(t, i).0[j]->Literal_0 == t[i + j] by {
            if j > 0 {
                assert(compile_from(t, i).0[j] == compile_from(t, i + 1).0[j - 1]);
                assert(t[(i + 1) + (j - 1)] == t[i + j]);
            }
        }
    }
}

proof fn lemma_match_literals(ps: Seq<Piece>, t: Seq<char>, ti: int, p: Seq<char>, pj: int, k: int)
    requires
        ps.len() == t.len(),
        forall|j: int| 0 <= j < ps.len() ==> (#[trigger] ps[j] is Literal) && ps[j]->Literal_0 == t[j],
        0 <= ti <= ps.len(),
        0 <= pj <= p.len(),
    ensures
        match_from(ps, ti, p, pj, k) == if p.subrange(pj, p.len() as int) == t.subrange(
            ti,
            t.len() as int,
        ) {
            Some(Seq::<Seq<char>>::empty())
        } else {
            None
        },
    decreases ps.len() - ti,
{
    let ps_rest = p.subrange(pj, p.len() as int);
    let ts_rest = t.subrange(ti, t.len() as int);
    if ti == ps.len() {
        if pj < p.len() {
            assert(ps_rest.len() != ts_rest.len());
        } else {
            assert(ps_rest =~= ts_rest);
        }
    } else {
        assert(ps[ti] is Literal);
        let kb = budget(ps, ti + 1, p, pj + 1);
        if pj < p.len() && p[pj] == t[ti] {
            lemma_match_literals(ps, t, ti + 1, p, pj + 1, kb);
            if p.subrange(pj + 1, p.len() as int) == t.subrange(ti + 1, t.len() as int) {
                assert(p.subrange(pj + 1, p.len() as int).len() == t.subrange(ti + 1, t.len() as int).len());
                assert(ps_rest.len() == ts_rest.len());
                assert(ps_rest =~= ts_rest) by {
                    assert forall|x: int| 0 <= x < ps_rest.len() implies ps_rest[x] == ts_rest[x] by {
                        if x > 0 {
                            assert(ps_rest[x] == p.subrange(pj + 1, p.len() as int)[x - 1]);
                            assert(ts_rest[x] == t.subrange(ti + 1, t.len() as int)[x - 1]);
                        }
                    }
                }
            } else {
                assert(ps_rest != ts_rest) by {
                    if ps_rest == ts_rest {
                        assert(p.subrange(pj + 1, p.len() as int) =~= ps_rest.drop_first());
                        assert(t.subrange(ti + 1, t.len() as int) =~= ts_rest.drop_first());
                    }
                }
            }
        } else {
            assert(ps_rest != ts_rest) by {
                if ps_rest == ts_rest {
                    assert(ts_rest.len() > 0);
                    assert(ps_rest[0] == ts_rest[0]);
                }
            }
        }
    }
}

/// A template with no `:` and no `*` matches exactly the path equal to it,
/// and then captures nothing: no prefix, extension or other path matches.
pub proof fn literal_template_matches_only_itself(t: Seq<char>, p: Seq<char>)
    requires
        is_literal_template(t),
    ensures
        match_pieces(compile_pieces(t), p) is Some <==> p == t,
        p == t ==> match_pieces(compile_pieces(t), p) == Some(Seq::<Seq<char>>::empty()),
{
    lemma_compile_literal_template(t, 0);
    let ps = compile_pieces(t);
    assert forall|j: int| 0 <= j < ps.len() implies (#[trigger] ps[j] is Literal) && ps[j]->Literal_0 == t[j] by {
        assert(compile_from(t, 0).0[j] is Literal);
    }
    lemma_match_literals(ps, t, 0, p, 0, budget(ps, 0, p, 0));
    assert(p.subrange(0, p.len() as int) =~= p);
    assert(t.subrange(0, t.len() as int) =~= t);
}

/// Whether a captured text is one whole segment: non-empty, without `/`.
pub open spec fn is_segment(s: Seq<char>) -> bool {
    s.len() > 0 && !s.contains('/')
}

/// Whether every capture whose kind says "named" is one whole segment.
pub open spec fn named_are_segments(kinds: Seq<bool>, caps: Seq<Seq<char>>) -> bool {
    kinds.len() == caps.len() && forall|i: int| 0 <= i < caps.len() && kinds[i] ==> is_segment(#[trigger] caps[i])
}

proof fn lemma_kinds_step(ps: Seq<Piece>, ti: int)
    requires
        0 <= ti < ps.len(),
    ensures
        capture_kinds(ps.subrange(ti, ps.len() as int)) == match ps[ti] {
            Piece::Param => seq![true] + capture_kinds(ps.subrange(ti + 1, ps.len() as int)),
            Piece::Wildcard => seq![false] + capture_kinds(ps.subrange(ti + 1, ps.len() as int)),
            Piece::Literal(_) => capture_kinds(ps.subrange(ti + 1, ps.len() as int)),
        },
{
    let s = ps.subrange(ti, ps.len() as int);
    assert(s.drop_first() =~= ps.subrange(ti + 1, ps.len() as int));
    assert(s[0] == ps[ti]);
}

proof fn lemma_match_from_segments(ps: Seq<Piece>, ti: int, p: Seq<char>, pj: int, k: int)
    requires
        0 <= ti <= ps.len(),
        0 <= pj <= p.len(),
        ti < ps.len() && ps[ti] is Param ==> k <= segment_end(p, pj) - pj,
        match_from(ps, ti, p, pj, k) is Some,
    ensures
        named_are_segments(capture_kinds(ps.subrange(ti, ps.len() as int)), match_from(ps, ti, p, pj, k)->0),
    decreases ps.len() - ti, k,
{
    let caps = match_from(ps, ti, p, pj, k)->0;
    if ti == ps.len() {
        assert(ps.subrange(ti, ps.len() as int) =~= Seq::<Piece>::empty());
    } else {
        lemma_kinds_step(ps, ti);
        let rest_kinds = capture_kinds(ps.subrange(ti + 1, ps.len() as int));
        match ps[ti] {
            Piece::Literal(_) => {
                if ti + 1 < ps.len() && ps[ti + 1] is Param {
                    lemma_segment_end_bounds(p, pj + 1);
                }
                lemma_match_from_segments(ps, ti + 1, p, pj + 1, budget(ps, ti + 1, p, pj + 1));
            },
            Piece::Param => {
                let inner = match_from(ps, ti + 1, p, pj + k, budget(ps, ti + 1, p, pj + k));
                if inner is Some {
                    lemma_segment_end_bounds(p, pj);
                    if ti + 1 < ps.len() && ps[ti + 1] is Param {
                        lemma_segment_end_bounds(p, pj + k);
                    }
                    lemma_match_from_segments(ps, ti + 1, p, pj + k, budget(ps, ti + 1, p, pj + k));
                    let seg = p.subrange(pj, pj + k);
                    assert(is_segment(seg)) by {
                        assert forall|x: int| 0 <= x < seg.len() implies seg[x] != '/' by {
                            assert(seg[x] == p[pj + x]);
                        }
                    }
                    assert forall|i: int| 0 <= i < caps.len() && (seq![true] + rest_kinds)[i] implies is_segment(
                        #[trigger] caps[i],
                    ) by {
                        if i > 0 {
                            assert(caps[i] == inner->0[i - 1]);
                        }
                    }
                } else {
                    lemma_match_from_segments(ps, ti, p, pj, k - 1);
                }
            },
            Piece::Wildcard => {
                let inner = match_from(ps, ti + 1, p, pj + k, budget(ps, ti + 1, p, pj + k));
                if inner is Some {
                    if ti + 1 < ps.len() && ps[ti + 1] is Param {
                        lemma_segment_end_bounds(p, pj + k);
                    }
                    lemma_match_from_segments(ps, ti + 1, p, pj + k, budget(ps, ti + 1, p, pj + k));
                    assert forall|i: int| 0 <= i < caps.len() && (seq![false] + rest_kinds)[i] implies is_segment(
                        #[trigger] caps[i],
                    ) by {
                        assert(i > 0);
                        assert(caps[i] == inner->0[i - 1]);
                    }
                } else {
                    lemma_match_from_segments(ps, ti, p, pj, k - 1);
                }
            },
        }
    }
}

proof fn lemma_select_segments(kinds: Seq<bool>, caps: Seq<Seq<char>>)
    requires
        named_are_segments(kinds, caps),
    ensures
        forall|i: int|
            0 <= i < select_captures(kinds, caps, true).len() ==> is_segment(
                #[trigger] select_captures(kinds, caps, true)[i],
            ),
    decreases caps.len(),
{
    if caps.len() > 0 && kinds.len() > 0 {
        assert forall|i: int| 0 <= i < caps.drop_first().len() && kinds.drop_first()[i] implies is_segment(
            #[trigger] caps.drop_first()[i],
        ) by {
            assert(caps.drop_first()[i] == caps[i + 1]);
            assert(kinds.drop_first()[i] == kinds[i + 1]);
        }
        lemma_select_segments(kinds.drop_first(), caps.drop_first());
        let rest = select_captures(kinds.drop_first(), caps.drop_first(), true);
        if kinds[0] {
            assert forall|i: int| 0 <= i < select_captures(kinds, caps, true).len() implies is_segment(
                #[trigger] select_captures(kinds, caps, true)[i],
            ) by {
                if i > 0 {
                    assert(select_captures(kinds, caps, true)[i] == rest[i - 1]);
                }
            }
        }
    }
}

/// A named capture is always one whole path segment: every text that a
/// parameter captures is non-empty and holds no `/`.
pub proof fn named_captures_are_segments(ps: Seq<Piece>, p: Seq<char>)
    requires
        match_pieces(ps, p) is Some,
    ensures
        forall|i: int|
            0 <= i < select_captures(capture_kinds(ps), match_pieces(ps, p)->0, true).len() ==> is_segment(
                #[trigger] select_captures(capture_kinds(ps), match_pieces(ps, p)->0, true)[i],
            ),
{
    if 0 < ps.len() && ps[0] is Param {
        lemma_segment_end_bounds(p, 0);
    }
    lemma_match_from_segments(ps, 0, p, 0, budget(ps, 0, p, 0));
    assert(ps.subrange(0, ps.len() as int) =~= ps);
    lemma_select_segments(capture_kinds(ps), match_pieces(ps, p)->0);
}

/// The number of named captures among the pieces.
pub open spec fn named_count(ps: Seq<Piece>) -> nat
    decreases ps.len(),
{
    if ps.len() == 0 {
        0
    } else {
        (if ps[0] is Param {
            1nat
        } else {
            0nat
        }) + named_count(ps.drop_first())
    }
}

/// The number of `true` entries.
pub open spec fn count_true(kinds: Seq<bool>) -> nat
    decreases kinds.len(),
{
    if kinds.len() == 0 {
        0
    } else {
        (if kinds[0] {
            1nat
        } else {
            0nat
        }) + count_true(kinds.drop_first())
    }
}

proof fn lemma_compile_counts(t: Seq<char>, i: int)
    requires
        0 <= i <= t.len(),
    ensures
        compile_from(t, i).1.len() == named_count(compile_from(t, i).0),
    decreases t.len() - i,
{
    if i < t.len() {
        let c = t[i];
        if c == ':' {
            let e = name_end(t, i + 1);
            lemma_name_end_bounds(t, i + 1);
            lemma_compile_counts(t, e);
            let rest = compile_from(t, e);
            assert((seq![Piece::Param] + rest.0).drop_first() =~= rest.0);
        } else if c == '*' {
            lemma_compile_counts(t, i + 1);
            let rest = compile_from(t, i + 1);
            assert((seq![Piece::Wildcard] + rest.0).drop_first() =~= rest.0);
        } else {
            lemma_compile_counts(t, i + 1);
            lemma_compile_literal(t, i, c, seq![]);
            let ps = compile_from(t, i).0;
            assert(ps.drop_first() =~= compile_from(t, i + 1).0);
        }
    }
}

proof fn lemma_kinds_count(ps: Seq<Piece>)
    ensures
        count_true(capture_kinds(ps)) == named_count(ps),
        capture_kinds(ps).len() <= ps.len(),
    decreases ps.len(),
{
    if ps.len() > 0 {
        lemma_kinds_count(ps.drop_first());
        let rest = capture_kinds(ps.drop_first());
        if ps[0] is Param {
            assert((seq![true] + rest).drop_first() =~= rest);
        } else if ps[0] is Wildcard {
            assert((seq![false] + rest).drop_first() =~= rest);
        }
    }
}

proof fn lemma_select_count(kinds: Seq<bool>, caps: Seq<Seq<char>>)
    requires
        kinds.len() == caps.len(),
    ensures
        select_captures(kinds, caps, true).len() == count_true(kinds),
    decreases caps.len(),
{
    if caps.len() > 0 {
        lemma_select_count(kinds.drop_first(), caps.drop_first());
    }
}

proof fn lemma_zip_keys(keys: Seq<Seq<char>>, vals: Seq<Seq<char>>)
    requires
        keys.len() == vals.len(),
    ensures
        forall|k: Seq<char>| #[trigger] zip_pairs(keys, vals).contains_key(k) <==> keys.contains(k),
    decreases keys.len(),
{
    if keys.len() > 0 {
        let rest = keys.drop_first();
        lemma_zip_keys(rest, vals.drop_first());
        assert(zip_pairs(keys, vals) == zip_pairs(rest, vals.drop_first()).insert(keys[0], vals[0]));
        assert forall|k: Seq<char>| #[trigger] zip_pairs(keys, vals).contains_key(k) <==> keys.contains(k) by {
            if keys.contains(k) {
                let j = choose|j: int| 0 <= j < keys.len() && keys[j] == k;
                if j > 0 {
                    assert(rest[j - 1] == k);
                    assert(rest.contains(k));
                }
            }
            if zip_pairs(keys, vals).contains_key(k) {
                if k != keys[0] {
                    assert(zip_pairs(rest, vals.drop_first()).contains_key(k));
                    assert(rest.contains(k));
                    let j = choose|j: int| 0 <= j < rest.len() && rest[j] == k;
                    assert(keys[j + 1] == k);
                } else {
                    assert(keys[0] == k);
                }
            }
        }
    }
}

/// The parameters of a match have exactly the declared names as keys: every
/// name written as `:name` in the template is a key, and no other key occurs
/// (a wildcard adds none).
pub proof fn declared_names_are_the_keys(t: Seq<char>, p: Seq<char>)
    requires
        match_pieces(compile_pieces(t), p) is Some,
    ensures
        forall|k: Seq<char>|
            #[trigger] zip_pairs(
                compile_names(t),
                select_captures(capture_kinds(compile_pieces(t)), match_pieces(compile_pieces(t), p)->0, true),
            ).contains_key(k) <==> compile_names(t).contains(k),
{
    let ps = compile_pieces(t);
    let caps = match_pieces(ps, p)->0;
    lemma_compile_counts(t, 0);
    lemma_kinds_count(ps);
    if 0 < ps.len() && ps[0] is Param {
        lemma_segment_end_bounds(p, 0);
    }
    lemma_match_from_segments(ps, 0, p, 0, budget(ps, 0, p, 0));
    assert(ps.subrange(0, ps.len() as int) =~= ps);
    lemma_select_count(capture_kinds(ps), caps);
    lemma_zip_keys(compile_names(t), select_captures(capture_kinds(ps), caps, true));
}

/// A compiled route template.
pub struct PathPattern {
    /// The template as written.
    pub path: String,
    /// The compiled matcher.
    pub pieces: Vec<Piece>,
    /// The parameter names, in declaration order.
    pub param_names: Vec<String>,
}

/// The outcome of a successful match.
pub struct PathMatch {
    /// Every captured text, named and wildcard, in template order.
    pub captures: Vec<String>,
    /// The texts of the wildcard captures, in order.
    pub wildcards: Vec<String>,
    /// The named captures; where a name repeats, its first capture wins.
    pub params: TextMap,
}

impl PathPattern {
    pub open spec fn pieces_view(&self) -> Seq<Piece> {
        self.pieces@
    }

    pub open spec fn wf(&self) -> bool {
        &&& self.pieces_view() == compile_pieces(self.path@)
        &&& self.param_names.deep_view() == compile_names(self.path@)
    }

    /// Compiles a template. Compilation never fails.
    pub fn new(path: &str) -> (r: PathPattern)
        ensures
            r.wf(),
            r.path@ == path@,
    {
        let t = chars_of(path);
        let (pieces, names) = compile(&t);
        PathPattern { path: text_of(&t), pieces, param_names: names }
    }

    /// Matches a whole path against the template.
    pub fn match_path(&self, path: &str) -> (r: Option<PathMatch>)
        requires
            self.wf(),
        ensures
            match_pieces(self.pieces_view(), path@) is None ==> r is None,
            match match_pieces(self.pieces_view(), path@) {
                Some(caps) => r is Some && {
                    let m = r->0;
                    &&& m.captures.deep_view() == caps
                    &&& m.wildcards.deep_view() == select_captures(
                        capture_kinds(self.pieces_view()),
                        caps,
                        false,
                    )
                    &&& m.params.wf()
                    &&& m.params@ == zip_pairs(
                        self.param_names.deep_view(),
                        select_captures(capture_kinds(self.pieces_view()), caps, true),
                    )
                },
                None => true,
            },
    {
        let p = chars_of(path);
        let k = budget_at(&self.pieces, 0, &p, 0);
        match match_at(&self.pieces, 0, &p, 0, k) {
            None => None,
            Some(caps) => {
                let named = select_at(&self.pieces, &caps, true);
                let wild = select_at(&self.pieces, &caps, false);
                let params = TextMap::from_pairs(&self.param_names, &named);
                let mut captures: Vec<String> = Vec::new();
                let mut i: usize = 0;
                assert(captures.deep_view() =~= char_seqs(caps@).subrange(0, 0));
                while i < caps.len()
                    invariant
                        i <= caps@.len(),
                        captures.deep_view() == char_seqs(caps@).subrange(0, i as int),
                    decreases caps@.len() - i,
                {
                    let ghost before = captures.deep_view();
                    let txt = text_of(&caps[i]);
                    captures.push(txt);
                    assert(captures.deep_view() =~= before.push(char_seqs(caps@)[i as int]));
                    assert(captures.deep_view() =~= char_seqs(caps@).subrange(0, i as int + 1));
                    i += 1;
                }
                assert(char_seqs(caps@) =~= char_seqs(caps@).subrange(0, caps@.len() as int));
                let mut wildcards: Vec<String> = Vec::new();
                let mut j: usize = 0;
                assert(wildcards.deep_view() =~= char_seqs(wild@).subrange(0, 0));
                while j < wild.len()
                    invariant
                        j <= wild@.len(),
                        wildcards.deep_view() == char_seqs(wild@).subrange(0, j as int),
                    decreases wild@.len() - j,
                {
                    let ghost before = wildcards.deep_view();
                    let txt = text_of(&wild[j]);
                    wildcards.push(txt);
                    assert(wildcards.deep_view() =~= before.push(char_seqs(wild@)[j as int]));
                    assert(wildcards.deep_view() =~= char_seqs(wild@).subrange(0, j as int + 1));
                    j += 1;
                }
                assert(char_seqs(wild@) =~= char_seqs(wild@).subrange(0, wild@.len() as int));
                Some(PathMatch { captures, wildcards, params })
            },
        }
    }
}

/// The end of the run of name characters starting at `i`.
fn scan_name(t: &Vec<char>, i: usize) -> (e: usize)
    requires
        i <= t@.len(),
    ensures
        e as int == name_end(t@, i as int),
        i <= e <= t@.len(),
{
    let mut e = i;
    while e < t.len() && (is_alphanumeric(t[e]) || t[e] == '_')
        invariant
            i <= e <= t@.len(),
            name_end(t@, e as int) == name_end(t@, i as int),
        decreases t@.len() - e,
    {
        e += 1;
    }
    e
}

fn compile(t: &Vec<char>) -> (r: (Vec<Piece>, Vec<String>))
    ensures
        r.0@ == compile_pieces(t@),
        r.1.deep_view() == compile_names(t@),
{
    let mut pieces: Vec<Piece> = Vec::new();
    let mut names: Vec<String> = Vec::new();
    let mut i: usize = 0;
    while i < t.len()
        invariant
            i <= t@.len(),
            pieces@ + compile_from(t@, i as int).0 == compile_pieces(t@),
            names.deep_view() + compile_from(t@, i as int).1 == compile_names(t@),
        decreases t@.len() - i,
    {
        let c = t[i];
        if c == ':' {
            let e = scan_name(t, i + 1);
            let mut name: Vec<char> = Vec::new();
            let mut j: usize = i + 1;
            while j < e
                invariant
                    i + 1 <= j <= e <= t@.len(),
                    name@ == t@.subrange(i + 1, j as int),
                decreases e - j,
            {
                name.push(t[j]);
                assert(name@ =~= t@.subrange(i + 1, j + 1));
                j += 1;
            }
            let ghost before_names = names.deep_view();
            let ghost before_pieces = pieces@;
            let nm = text_of(&name);
            pieces.push(Piece::Param);
            names.push(nm);
            let ghost rest = compile_from(t@, e as int);
            assert(compile_from(t@, i as int) == (
                seq![Piece::Param] + rest.0,
                seq![t@.subrange(i + 1, e as int)] + rest.1,
            ));
            assert(names.deep_view() =~= before_names.push(t@.subrange(i + 1, e as int)));
            assert(pieces@ + rest.0 =~= before_pieces + (seq![Piece::Param] + rest.0));
            assert(names.deep_view() + rest.1 =~= before_names + (seq![t@.subrange(i + 1, e as int)]
                + rest.1));
            i = e;
        } else if c == '*' {
            let ghost before_pieces = pieces@;
            pieces.push(Piece::Wildcard);
            let ghost rest = compile_from(t@, i + 1);
            assert(compile_from(t@, i as int) == (seq![Piece::Wildcard] + rest.0, rest.1));
            assert(pieces@ + rest.0 =~= before_pieces + (seq![Piece::Wildcard] + rest.0));
            i += 1;
        } else {
            let ghost before_pieces = pieces@;
            let piece = Piece::Literal(c);
            pieces.push(piece);
            let ghost rest = compile_from(t@, i + 1);
            proof { lemma_compile_literal(t@, i as int, c, before_pieces); }
            i += 1;
        }
    }
    assert(pieces@ =~= compile_pieces(t@));
    assert(names.deep_view() =~= compile_names(t@));
    (pieces, names)
}

fn segment_end_at(p: &Vec<char>, j: usize) -> (e: usize)
    requires
        j <= p@.len(),
    ensures
        e as int == segment_end(p@, j as int),
        j <= e <= p@.len(),
{
    let mut e = j;
    while e < p.len() && p[e] != '/'
        invariant
            j <= e <= p@.len(),
            segment_end(p@, e as int) == segment_end(p@, j as int),
        decreases p@.len() - e,
    {
        e += 1;
    }
    e
}

fn budget_at(ps: &Vec<Piece>, ti: usize, p: &Vec<char>, pj: usize) -> (k: usize)
    requires
        pj <= p@.len(),
    ensures
        k as int == budget(ps@, ti as int, p@, pj as int),
{
    if ti < ps.len() {
        match ps[ti] {
            Piece::Param => segment_end_at(p, pj) - pj,
            Piece::Wildcard => p.len() - pj,
            Piece::Literal(_) => 0,
        }
    } else {
        0
    }
}

spec fn deep_opt(r: Option<Vec<Vec<char>>>) -> Option<Seq<Seq<char>>> {
    match r {
        Some(v) => Some(char_seqs(v@)),
        None => None,
    }
}

proof fn lemma_segment_end_bounds(p: Seq<char>, j: int)
    requires
        0 <= j <= p.len(),
    ensures
        j <= segment_end(p, j) <= p.len(),
        forall|x: int| j <= x < segment_end(p, j) ==> p[x] != '/',
    decreases p.len() - j,
{
    if j < p.len() && p[j] != '/' {
        lemma_segment_end_bounds(p, j + 1);
    }
}

fn match_at(ps: &Vec<Piece>, ti: usize, p: &Vec<char>, pj: usize, k: usize) -> (r: Option<
    Vec<Vec<char>>,
>)
    requires
        ti <= ps@.len(),
        pj <= p@.len(),
    ensures
        deep_opt(r) == match_from(ps@, ti as int, p@, pj as int, k as int),
    decreases ps@.len() - ti, k,
{
    if ti >= ps.len() {
        if pj == p.len() {
            let v: Vec<Vec<char>> = Vec::new();
            assert(char_seqs(v@) =~= Seq::<Seq<char>>::empty());
            return Some(v);
        } else {
            return None;
        }
    }
    match ps[ti] {
        Piece::Literal(c) => {
            if pj < p.len() && p[pj] == c {
                let kb = budget_at(ps, ti + 1, p, pj + 1);
                match_at(ps, ti + 1, p, pj + 1, kb)
            } else {
                None
            }
        },
        Piece::Param | Piece::Wildcard => {
            let is_param = ps[ti] == Piece::Param;
            if is_param && k == 0 {
                return None;
            }
            if k > p.len() - pj {
                // This length runs past the end of the path: try the next shorter one.
                assert(match_from(ps@, ti + 1, p@, pj + k, budget(ps@, ti + 1, p@, pj + k)) is None);
                return match_at(ps, ti, p, pj, k - 1);
            }
            let end = pj + k;
            let kb = budget_at(ps, ti + 1, p, pj + k);
            match match_at(ps, ti + 1, p, pj + k, kb) {
                Some(caps) => {
                    let mut seg: Vec<char> = Vec::new();
                    let mut x: usize = pj;
                    while x < end
                        invariant
                            end == pj + k,
                            pj <= x <= end <= p@.len(),
                            seg@ == p@.subrange(pj as int, x as int),
                        decreases end - x,
                    {
                        seg.push(p[x]);
                        assert(seg@ =~= p@.subrange(pj as int, x + 1));
                        x += 1;
                    }
                    let mut out: Vec<Vec<char>> = Vec::new();
                    out.push(seg);
                    let mut caps = caps;
                    let ghost before = caps@;
                    out.append(&mut caps);
                    assert(char_seqs(out@) =~= seq![p@.subrange(pj as int, pj + k)] + char_seqs(before));
                    Some(out)
                },
                None => {
                    if k == 0 {
                        None
                    } else {
                        match_at(ps, ti, p, pj, k - 1)
                    }
                },
            }
        },
    }
}

/// The captures of the given kind, in order.
fn select_at(ps: &Vec<Piece>, caps: &Vec<Vec<char>>, named: bool) -> (r: Vec<Vec<char>>)
    ensures
        char_seqs(r@) == select_captures(capture_kinds(ps@), char_seqs(caps@), named),
{
    let kinds = kinds_of(ps);
    let mut out: Vec<Vec<char>> = Vec::new();
    let mut i: usize = 0;
    assert(kinds@.subrange(0, kinds@.len() as int) =~= kinds@);
    assert(char_seqs(caps@).subrange(0, caps@.len() as int) =~= char_seqs(caps@));
    assert(char_seqs(out@) =~= Seq::<Seq<char>>::empty());
    while i < caps.len() && i < kinds.len()
        invariant
            kinds@ == capture_kinds(ps@),
            i <= caps@.len(),
            i <= kinds@.len(),
            char_seqs(out@) + select_captures(
                kinds@.subrange(i as int, kinds@.len() as int),
                char_seqs(caps@).subrange(i as int, caps@.len() as int),
                named,
            ) == select_captures(capture_kinds(ps@), char_seqs(caps@), named),
        decreases caps@.len() - i,
    {
        let ghost ks = kinds@.subrange(i as int, kinds@.len() as int);
        let ghost cs = char_seqs(caps@).subrange(i as int, caps@.len() as int);
        assert(ks.drop_first() =~= kinds@.subrange(i + 1, kinds@.len() as int));
        assert(cs.drop_first() =~= char_seqs(caps@).subrange(i + 1, caps@.len() as int));
        if kinds[i] == named {
            let ghost before = char_seqs(out@);
            out.push(caps[i].clone());
            assert(char_seqs(out@) =~= before.push(cs[0]));
            assert(char_seqs(out@) + select_captures(ks.drop_first(), cs.drop_first(), named)
                =~= before + select_captures(ks, cs, named));
        }
        i += 1;
    }
    let ghost ks = kinds@.subrange(i as int, kinds@.len() as int);
    let ghost cs = char_seqs(caps@).subrange(i as int, caps@.len() as int);
    assert(cs.len() == 0 || ks.len() == 0);
    assert(char_seqs(out@) =~= char_seqs(out@) + select_captures(ks, cs, named));
    out
}

fn kinds_of(ps: &Vec<Piece>) -> (r: Vec<bool>)
    ensures
        r@ == capture_kinds(ps@),
{
    let mut out: Vec<bool> = Vec::new();
    let mut i: usize = 0;
    assert(ps@.subrange(0, ps@.len() as int) =~= ps@);
    while i < ps.len()
        invariant
            i <= ps@.len(),
            out@ + capture_kinds(ps@.subrange(i as int, ps@.len() as int)) == capture_kinds(ps@),
        decreases ps@.len() - i,
    {
        let ghost rest = ps@.subrange(i as int, ps@.len() as int);
        assert(rest.drop_first() =~= ps@.subrange(i + 1, ps@.len() as int));
        match ps[i] {
            Piece::Param => out.push(true),
            Piece::Wildcard => out.push(false),
            Piece::Literal(_) => {},
        }
        assert(out@ + capture_kinds(rest.drop_first()) =~= capture_kinds(ps@));
        i += 1;
    }
    assert(ps@.subrange(ps@.len() as int, ps@.len() as int) =~= Seq::<Piece>::empty());
    assert(out@ =~= capture_kinds(ps@));
    out
}

} // verus!
