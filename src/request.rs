//! Reading the query string of a request into a parameter map.
use vstd::prelude::*;
use crate::text::{chars_of, text_of, split_on, lemma_split_on_nonempty};
use crate::text_map::TextMap;

verus! {

/// What percent-decoding `s` gives, with invalid UTF-8 replaced.
pub uninterp spec fn percent_decoded(s: Seq<char>) -> Seq<char>;

/// Relies on `percent_encoding::percent_decode_str` followed by
/// `decode_utf8_lossy`: every `%` with two hex digits becomes that byte;
/// text without `%` comes back unchanged.
#[verifier::external_body]
fn decode_component(s: &str) -> (r: String)
    ensures
        r@ == percent_decoded(s@),
        !s@.contains('%') ==> r@ == s@,
{
    percent_encoding::percent_decode_str(s).decode_utf8_lossy().to_string()
}

/// The index of the first `=` in `p`, if any.
pub open spec fn first_eq(p: Seq<char>) -> Option<int>
    decreases p.len(),
{
    if p.len() == 0 {
        None
    } else if p[0] == '=' {
        Some(0)
    } else {
        match first_eq(p.drop_first()) {
            Some(i) => Some(i + 1),
            None => None,
        }
    }
}

/// The map that the pieces give, in order: a piece with an `=` sets its
/// decoded key (before the first `=`) to its decoded value (after it); a
/// later piece wins over an earlier one; a piece without `=` is skipped.
pub open spec fn pairs_map(ps: Seq<Seq<char>>) -> Map<Seq<char>, Seq<char>>
    decreases ps.len(),
{
    if ps.len() == 0 {
        Map::empty()
    } else {
        let m = pairs_map(ps.drop_last());
        let p = ps.last();
        match first_eq(p) {
            Some(i) => m.insert(
                percent_decoded(p.subrange(0, i)),
                percent_decoded(p.subrange(i + 1, p.len() as int)),
            ),
            None => m,
        }
    }
}

/// The parameters of a query string (`None` when the request has none).
pub open spec fn query_params(query: Option<Seq<char>>) -> Map<Seq<char>, Seq<char>> {
    match query {
        Some(q) => pairs_map(split_on(q, '&')),
        None => Map::empty(),
    }
}

proof fn lemma_first_eq(p: Seq<char>, i: int)
    requires
        0 <= i <= p.len(),
        forall|j: int| 0 <= j < i ==> p[j] != '=',
        i < p.len() ==> p[i] == '=',
    ensures
        first_eq(p) == if i < p.len() {
            Some(i)
        } else {
            None::<int>
        },
    decreases i,
{
    if i > 0 {
        assert forall|j: int| 0 <= j < i - 1 implies p.drop_first()[j] != '=' by {
            assert(p.drop_first()[j] == p[j + 1]);
        }
        lemma_first_eq(p.drop_first(), i - 1);
    }
}

/// Adds one piece to the map, as `pairs_map` does.
fn add_piece(m: &mut TextMap, piece: &Vec<char>)
    requires
        old(m).wf(),
    ensures
        final(m).wf(),
        final(m)@ == match first_eq(piece@) {
            Some(i) => old(m)@.insert(
                percent_decoded(piece@.subrange(0, i)),
                percent_decoded(piece@.subrange(i + 1, piece@.len() as int)),
            ),
            None => old(m)@,
        },
{
    let mut i: usize = 0;
    while i < piece.len() && piece[i] != '='
        invariant
            i <= piece@.len(),
            forall|j: int| 0 <= j < i ==> piece@[j] != '=',
        decreases piece@.len() - i,
    {
        i += 1;
    }
    proof {
        lemma_first_eq(piece@, i as int);
    }
    if i == piece.len() {
        return;
    }
    let mut key: Vec<char> = Vec::new();
    let mut j: usize = 0;
    while j < i
        invariant
            i < piece@.len(),
            j <= i,
            key@ == piece@.subrange(0, j as int),
        decreases i - j,
    {
        key.push(piece[j]);
        assert(key@ =~= piece@.subrange(0, j + 1));
        j += 1;
    }
    let mut value: Vec<char> = Vec::new();
    let mut k: usize = i + 1;
    while k < piece.len()
        invariant
            i < piece@.len(),
            i + 1 <= k <= piece@.len(),
            value@ == piece@.subrange(i + 1, k as int),
        decreases piece@.len() - k,
    {
        value.push(piece[k]);
        assert(value@ =~= piece@.subrange(i + 1, k + 1));
        k += 1;
    }
    let kt = text_of(&key);
    let vt = text_of(&value);
    m.insert(decode_component(kt.as_str()), decode_component(vt.as_str()));
}

/// The parameters of a query string: pieces between `&` that hold an `=`,
/// split at the first `=`, each side percent-decoded; later keys win.
pub fn parse_query(query: Option<&str>) -> (r: TextMap)
    ensures
        r.wf(),
        r@ == query_params(match query {
            Some(q) => Some(q@),
            None => None,
        }),
{
    let mut m = TextMap::new();
    let q = match query {
        Some(q) => q,
        None => return m,
    };
    let v = chars_of(q);
    let mut cur: Vec<char> = Vec::new();
    let mut i: usize = 0;
    assert(v@.subrange(0, 0) =~= Seq::<char>::empty());
    while i < v.len()
        invariant
            i <= v@.len(),
            m.wf(),
            split_on(v@.subrange(0, i as int), '&').len() >= 1,
            cur@ == split_on(v@.subrange(0, i as int), '&').last(),
            m@ == pairs_map(split_on(v@.subrange(0, i as int), '&').drop_last()),
        decreases v@.len() - i,
    {
        let ghost before = v@.subrange(0, i as int);
        let ghost next = v@.subrange(0, i + 1);
        assert(next.drop_last() =~= before);
        proof {
            lemma_split_on_nonempty(before, '&');
        }
        let c = v[i];
        if c == '&' {
            add_piece(&mut m, &cur);
            proof {
                let ps = split_on(before, '&');
                assert(split_on(next, '&') == ps.push(Seq::<char>::empty()));
                assert(split_on(next, '&').drop_last() =~= ps);
                assert(ps.drop_last().push(ps.last()) =~= ps);
                assert(ps =~= ps.drop_last().push(cur@));
            }
            cur = Vec::new();
            proof {
                assert(split_on(next, '&').last() =~= cur@);
            }
        } else {
            cur.push(c);
            proof {
                let ps = split_on(before, '&');
                assert(split_on(next, '&') == ps.update(ps.len() - 1, ps.last().push(c)));
                assert(split_on(next, '&').drop_last() =~= ps.drop_last());
            }
        }
        i += 1;
    }
    add_piece(&mut m, &cur);
    proof {
        let ps = split_on(v@.subrange(0, i as int), '&');
        assert(ps.drop_last().push(ps.last()) =~= ps);
        assert(v@.subrange(0, i as int) =~= q@);
    }
    m
}

} // verus!
