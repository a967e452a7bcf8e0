//! The value normaliser: repeated command-line tokens of a list field become
//! one lower-cased, `:`-delimited string.
use crate::text::{is_white_space, split_colon, trim, trim_bounds, trim_end, trim_start};
use vstd::prelude::*;

verus! {

/// What `str::to_lowercase` returns for the given characters.
pub uninterp spec fn lower_of(s: Seq<char>) -> Seq<char>;

/// Relies on `str::to_lowercase`: its result depends on the characters alone,
/// and an empty string stays empty.
#[verifier::external_body]
fn lowercase(s: &str) -> (r: String)
    ensures
        r@ == lower_of(s@),
        s@.len() == 0 ==> r@.len() == 0,
{
    s.to_lowercase()
}

/// The trimmed pieces, in order, leaving out those that trim to nothing.
pub open spec fn kept(ps: Seq<Seq<char>>) -> Seq<Seq<char>>
    decreases ps.len(),
{
    if ps.len() == 0 {
        seq![]
    } else {
        let k = kept(ps.drop_last());
        if trim(ps.last()).len() > 0 {
            k.push(trim(ps.last()))
        } else {
            k
        }
    }
}

/// The sub-tokens of one token: none for a blank token; the trimmed,
/// non-empty pieces between colons where it holds a colon; else the trimmed
/// token itself.
pub open spec fn sub_tokens_of(t: Seq<char>) -> Seq<Seq<char>> {
    let tt = trim(t);
    if tt.len() == 0 {
        seq![]
    } else if tt.contains(':') {
        kept(split_colon(tt))
    } else {
        seq![tt]
    }
}

/// The sub-tokens of all tokens, in order.
pub open spec fn sub_tokens(ts: Seq<Seq<char>>) -> Seq<Seq<char>>
    decreases ts.len(),
{
    if ts.len() == 0 {
        seq![]
    } else {
        sub_tokens(ts.drop_last()) + sub_tokens_of(ts.last())
    }
}

/// The parts joined with `:` between each two.
pub open spec fn join_colon(ps: Seq<Seq<char>>) -> Seq<char>
    decreases ps.len(),
{
    if ps.len() == 0 {
        seq![]
    } else if ps.len() == 1 {
        ps[0]
    } else {
        join_colon(ps.drop_last()) + seq![':'] + ps.last()
    }
}

pub open spec fn lowered(ps: Seq<Seq<char>>) -> Seq<Seq<char>> {
    ps.map_values(|p: Seq<char>| lower_of(p))
}

/// The canonical form of a list of tokens.
pub open spec fn normalized(ts: Seq<Seq<char>>) -> Seq<char> {
    join_colon(lowered(sub_tokens(ts)))
}

pub open spec fn views(ts: Seq<String>) -> Seq<Seq<char>> {
    ts.map_values(|t: String| t@)
}

/// What a list field holds after normalisation: absent where no token was
/// given, else the canonical form of the tokens.
pub open spec fn normalized_field(arg: Option<Vec<String>>) -> Option<Seq<char>> {
    match arg {
        None => None,
        Some(v) => Some(normalized(views(v@))),
    }
}

pub open spec fn bounds_match(s: Seq<char>, r: Seq<(usize, usize)>, ps: Seq<Seq<char>>) -> bool {
    &&& r.len() == ps.len()
    &&& forall|k: int|
        0 <= k < r.len() ==> #[trigger] r[k].0 <= r[k].1 <= s.len() && s.subrange(
            r[k].0 as int,
            r[k].1 as int,
        ) == ps[k]
}

/// Character bounds of the sub-tokens of `token`.
fn sub_token_bounds(token: &str) -> (r: Vec<(usize, usize)>)
    ensures
        bounds_match(token@, r@, sub_tokens_of(token@)),
{
    let n = token.unicode_len();
    let (a, b) = trim_bounds(token, 0, n);
    assert(token@.subrange(0, n as int) =~= token@);
    let ghost tt = token@.subrange(a as int, b as int);
    let mut r: Vec<(usize, usize)> = Vec::new();
    if a == b {
        return r;
    }
    let mut has_colon = false;
    let mut ps = a;
    let mut i = a;
    let ghost mut done: Seq<Seq<char>> = seq![];
    assert(token@.subrange(a as int, a as int) =~= Seq::<char>::empty());
    while i < b
        invariant
            a <= ps <= i <= b <= n,
            n == token@.len(),
            split_colon(token@.subrange(a as int, i as int)) == done.push(
                token@.subrange(ps as int, i as int),
            ),
            bounds_match(token@, r@, kept(done)),
            has_colon <==> exists|j: int| a <= j < i && token@[j] == ':',
        decreases b - i,
    {
        let c = token.get_char(i);
        let ghost sub = token@.subrange(a as int, i + 1);
        assert(sub.drop_last() =~= token@.subrange(a as int, i as int));
        assert(sub.last() == c);
        if c == ':' {
            has_colon = true;
            let (pa, pb) = trim_bounds(token, ps, i);
            let ghost piece = token@.subrange(ps as int, i as int);
            assert(done.push(piece).drop_last() =~= done);
            if pa < pb {
                r.push((pa, pb));
            }
            proof {
                done = done.push(piece);
            }
            ps = i + 1;
            assert(token@.subrange(ps as int, i + 1) =~= Seq::<char>::empty());
        } else {
            assert(token@.subrange(ps as int, i as int).push(c) =~= token@.subrange(
                ps as int,
                i + 1,
            ));
        }
        i = i + 1;
    }
    if has_colon {
        let (pa, pb) = trim_bounds(token, ps, b);
        let ghost piece = token@.subrange(ps as int, b as int);
        assert(done.push(piece).drop_last() =~= done);
        if pa < pb {
            r.push((pa, pb));
        }
        let ghost j = choose|j: int| a <= j < b && token@[j] == ':';
        assert(tt[j - a] == ':');
        r
    } else {
        assert(!tt.contains(':')) by {
            if tt.contains(':') {
                let k = choose|k: int| 0 <= k < tt.len() && tt[k] == ':';
                assert(token@[a + k] == ':');
            }
        }
        let mut single: Vec<(usize, usize)> = Vec::new();
        single.push((a, b));
        single
    }
}

proof fn lemma_join_push(e: Seq<Seq<char>>, p: Seq<char>)
    ensures
        lowered(e.push(p)) == lowered(e).push(lower_of(p)),
        join_colon(lowered(e.push(p))) == if e.len() == 0 {
            lower_of(p)
        } else {
            join_colon(lowered(e)) + seq![':'] + lower_of(p)
        },
{
    assert(lowered(e.push(p)) =~= lowered(e).push(lower_of(p)));
    assert(lowered(e).push(lower_of(p)).drop_last() =~= lowered(e));
}

/// Normalises the tokens given for one list field: blank tokens are dropped,
/// tokens holding a colon are split at it into trimmed, non-empty pieces,
/// each piece is lower-cased, and all pieces are joined with `:`. No tokens
/// at all give `None`; tokens that are all blank give an empty string.
pub fn flatten_multi_to_win_fmt(arg: Option<&Vec<String>>) -> (r: Option<String>)
    ensures
        arg is None <==> r is None,
        arg is Some ==> r->0@ == normalized(views(arg->0@)),
{
    match arg {
        None => None,
        Some(tokens) => {
            let ghost ts = views(tokens@);
            let mut out = String::new();
            let mut any = false;
            let mut j: usize = 0;
            while j < tokens.len()
                invariant
                    j <= tokens.len(),
                    ts == views(tokens@),
                    out@ == join_colon(lowered(sub_tokens(ts.take(j as int)))),
                    any == (sub_tokens(ts.take(j as int)).len() > 0),
                decreases tokens.len() - j,
            {
                let token = tokens[j].as_str();
                let bounds = sub_token_bounds(token);
                let ghost before = sub_tokens(ts.take(j as int));
                let ghost subs = sub_tokens_of(token@);
                assert(before + subs.take(0) =~= before);
                let mut k: usize = 0;
                while k < bounds.len()
                    invariant
                        k <= bounds.len(),
                        bounds_match(token@, bounds@, subs),
                        out@ == join_colon(lowered(before + subs.take(k as int))),
                        any == ((before + subs.take(k as int)).len() > 0),
                    decreases bounds.len() - k,
                {
                    let (lo, hi) = bounds[k];
                    let low = lowercase(token.substring_char(lo, hi));
                    proof {
                        lemma_join_push(before + subs.take(k as int), subs[k as int]);
                        assert((before + subs.take(k as int)).push(subs[k as int]) =~= before
                            + subs.take(k + 1));
                        reveal_strlit(":");
                    }
                    if any {
                        out.append(":");
                    }
                    out.append(low.as_str());
                    any = true;
                    k = k + 1;
                }
                assert(subs.take(bounds.len() as int) =~= subs);
                assert(ts.take(j + 1).drop_last() =~= ts.take(j as int));
                assert(ts[j as int] == token@);
                j = j + 1;
            }
            assert(ts.take(tokens.len() as int) =~= ts);
            Some(out)
        },
    }
}

proof fn lemma_trim_start_len(s: Seq<char>)
    ensures
        trim_start(s).len() <= s.len(),
    decreases s.len(),
{
    if s.len() > 0 && is_white_space(s[0]) {
        lemma_trim_start_len(s.drop_first());
    }
}

proof fn lemma_trim_end_len(s: Seq<char>)
    ensures
        trim_end(s).len() <= s.len(),
    decreases s.len(),
{
    if s.len() > 0 && is_white_space(s.last()) {
        lemma_trim_end_len(s.drop_last());
    }
}

/// A trimmed, non-empty string neither starts nor ends with white space.
proof fn lemma_trimmed_ends(p: Seq<char>)
    requires
        p.len() > 0,
        trim(p) == p,
    ensures
        !is_white_space(p[0]),
        !is_white_space(p.last()),
{
    lemma_trim_start_len(p);
    lemma_trim_end_len(trim_start(p));
    if is_white_space(p[0]) {
        lemma_trim_start_len(p.drop_first());
    }
    if trim_start(p) == p && is_white_space(p.last()) {
        lemma_trim_end_len(p.drop_last());
    }
}

proof fn lemma_join_ends(ps: Seq<Seq<char>>)
    requires
        ps.len() > 0,
        forall|k: int| 0 <= k < ps.len() ==> (#[trigger] ps[k]).len() > 0,
    ensures
        join_colon(ps).len() > 0,
        join_colon(ps)[0] == ps[0][0],
        join_colon(ps).last() == ps.last().last(),
    decreases ps.len(),
{
    if ps.len() > 1 {
        lemma_join_ends(ps.drop_last());
        assert(ps.drop_last()[0] == ps[0]);
        assert(ps.last().len() > 0);
    }
}

proof fn lemma_split_len(s: Seq<char>)
    ensures
        split_colon(s).len() >= 1,
    decreases s.len(),
{
    if s.len() > 0 {
        lemma_split_len(s.drop_last());
    }
}

proof fn lemma_split_append(a: Seq<char>, x: Seq<char>)
    requires
        !x.contains(':'),
    ensures
        split_colon(a + x) == split_colon(a).update(
            split_colon(a).len() - 1,
            split_colon(a).last() + x,
        ),
    decreases x.len(),
{
    lemma_split_len(a);
    let sa = split_colon(a);
    if x.len() == 0 {
        assert(a + x =~= a);
        assert(sa.last() + x =~= sa.last());
        assert(sa.update(sa.len() - 1, sa.last() + x) =~= sa);
    } else {
        let y = x.drop_last();
        assert(!y.contains(':')) by {
            if y.contains(':') {
                let k = choose|k: int| 0 <= k < y.len() && y[k] == ':';
                assert(x[k] == ':');
            }
        }
        lemma_split_append(a, y);
        assert((a + x).drop_last() =~= a + y);
        assert((a + x).last() == x.last());
        assert(x.last() != ':') by {
            if x.last() == ':' {
                assert(x[x.len() - 1] == ':');
            }
        }
        assert((sa.last() + y).push(x.last()) =~= sa.last() + x);
        assert(sa.update(sa.len() - 1, sa.last() + y).update(sa.len() - 1, sa.last() + x)
            =~= sa.update(sa.len() - 1, sa.last() + x));
    }
}

proof fn lemma_split_join(ps: Seq<Seq<char>>)
    requires
        ps.len() > 0,
        forall|k: int| 0 <= k < ps.len() ==> !(#[trigger] ps[k]).contains(':'),
    ensures
        split_colon(join_colon(ps)) == ps,
    decreases ps.len(),
{
    if ps.len() == 1 {
        lemma_split_append(Seq::<char>::empty(), ps[0]);
        assert(Seq::<char>::empty() + ps[0] =~= ps[0]);
        assert(Seq::<char>::empty() + ps[0] =~= ps[0]);
        assert(seq![Seq::<char>::empty()].update(0, Seq::<char>::empty() + ps[0]) =~= ps);
    } else {
        let init = ps.drop_last();
        assert forall|k: int| 0 <= k < init.len() implies !(#[trigger] init[k]).contains(':') by {
            assert(init[k] == ps[k]);
        }
        lemma_split_join(init);
        let j = join_colon(init) + seq![':'];
        assert(j.drop_last() =~= join_colon(init));
        assert(split_colon(j) == init.push(Seq::<char>::empty()));
        assert(!ps.last().contains(':')) by {
            assert(ps.last() == ps[ps.len() - 1]);
        }
        lemma_split_append(j, ps.last());
        assert(Seq::<char>::empty() + ps.last() =~= ps.last());
        assert(init.push(Seq::<char>::empty()).update(init.len() as int, ps.last()) =~= ps);
    }
}

proof fn lemma_kept_trimmed(ps: Seq<Seq<char>>)
    requires
        forall|k: int| 0 <= k < ps.len() ==> (#[trigger] ps[k]).len() > 0 && trim(ps[k]) == ps[k],
    ensures
        kept(ps) == ps,
    decreases ps.len(),
{
    if ps.len() > 0 {
        let init = ps.drop_last();
        assert forall|k: int| 0 <= k < init.len() implies (#[trigger] init[k]).len() > 0 && trim(
            init[k],
        ) == init[k] by {
            assert(init[k] == ps[k]);
        }
        lemma_kept_trimmed(init);
        assert(ps.last() == ps[ps.len() - 1]);
        assert(init.push(ps.last()) =~= ps);
    }
}

/// A segment that normalisation leaves as it is: non-empty, without a
/// colon, without white space at either end, and unchanged by lower-casing.
pub open spec fn is_stable_segment(p: Seq<char>) -> bool {
    &&& p.len() > 0
    &&& !p.contains(':')
    &&& trim(p) == p
    &&& lower_of(p) == p
}

/// Normalising the canonical form of some tokens, given as one token, gives
/// that form back, wherever lower-casing leaves each of its segments as
/// they are.
pub proof fn lemma_normalized_idempotent(ts: Seq<Seq<char>>)
    requires
        forall|k: int|
            0 <= k < lowered(sub_tokens(ts)).len() ==> is_stable_segment(
                #[trigger] lowered(sub_tokens(ts))[k],
            ),
    ensures
        normalized(seq![normalized(ts)]) == normalized(ts),
{
    let l = lowered(sub_tokens(ts));
    let s = normalized(ts);
    let one = seq![s];
    assert(one.drop_last() =~= Seq::<Seq<char>>::empty());
    assert(one.last() == s);
    assert(sub_tokens(one.drop_last()) =~= Seq::<Seq<char>>::empty());
    assert(sub_tokens(one) =~= sub_tokens_of(s));
    assert(sub_tokens_of(s) == l) by {
        if l.len() == 0 {
        } else {
            lemma_join_ends(l);
            assert(l.last() == l[l.len() - 1]);
            lemma_trimmed_ends(l[0]);
            lemma_trimmed_ends(l.last());
            assert(trim(s) == s);
            if l.len() == 1 {
                assert(s == l[0]);
                assert(seq![l[0]] =~= l);
            } else {
                assert(s[join_colon(l.drop_last()).len() as int] == ':');
                assert(s.contains(':'));
                lemma_split_join(l);
                lemma_kept_trimmed(l);
            }
        }
    }
    assert(lowered(l) =~= l);
}

proof fn lemma_blank_sub_tokens(ts: Seq<Seq<char>>)
    requires
        forall|k: int| 0 <= k < ts.len() ==> trim(#[trigger] ts[k]).len() == 0,
    ensures
        sub_tokens(ts).len() == 0,
    decreases ts.len(),
{
    if ts.len() > 0 {
        let init = ts.drop_last();
        assert forall|k: int| 0 <= k < init.len() implies trim(#[trigger] init[k]).len() == 0 by {
            assert(init[k] == ts[k]);
        }
        lemma_blank_sub_tokens(init);
        assert(trim(ts[ts.len() - 1]).len() == 0);
    }
}

/// Tokens that are all blank, or no tokens, normalise to the empty string.
pub proof fn lemma_blank_tokens(ts: Seq<Seq<char>>)
    requires
        forall|k: int| 0 <= k < ts.len() ==> trim(#[trigger] ts[k]).len() == 0,
    ensures
        normalized(ts) == Seq::<char>::empty(),
{
    lemma_blank_sub_tokens(ts);
    assert(lowered(sub_tokens(ts)).len() == 0);
}

} // verus!
