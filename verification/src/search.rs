//! Name search: compiling a user query into a SQL-LIKE pattern and the
//! matcher for that pattern. The query is lowercased, literal `%` signs are
//! escaped, each run of ASCII whitespace becomes a single `%` wildcard, and
//! the whole pattern is wrapped in `%…%`.

use vstd::prelude::*;
use crate::text::{lower_seq, to_lower, str_chars, chars_string, is_ascii_ws, is_ws_char};

verus! {

/// The query with every literal `%` escaped as `\%`.
pub open spec fn esc_seq(s: Seq<char>) -> Seq<char>
    decreases s.len(),
{
    if s.len() == 0 {
        Seq::empty()
    } else {
        esc_seq(s.drop_last()) + (if s.last() == '%' {
            seq!['\\', '%']
        } else {
            seq![s.last()]
        })
    }
}

/// The maximal runs of non-whitespace characters, in order.
pub open spec fn split_ws(s: Seq<char>) -> Seq<Seq<char>>
    decreases s.len(),
{
    if s.len() == 0 {
        Seq::empty()
    } else if is_ascii_ws(s[0]) {
        split_ws(s.drop_first())
    } else {
        token_cont(s.drop_first(), seq![s[0]])
    }
}

/// Continues the token `tok` through `s` until whitespace or the end.
pub open spec fn token_cont(s: Seq<char>, tok: Seq<char>) -> Seq<Seq<char>>
    decreases s.len(),
{
    if s.len() == 0 {
        seq![tok]
    } else if is_ascii_ws(s[0]) {
        seq![tok] + split_ws(s.drop_first())
    } else {
        token_cont(s.drop_first(), tok.push(s[0]))
    }
}

/// The tokens joined by single `%` wildcards.
pub open spec fn join_pc(ts: Seq<Seq<char>>) -> Seq<char>
    decreases ts.len(),
{
    if ts.len() == 0 {
        Seq::empty()
    } else if ts.len() == 1 {
        ts[0]
    } else {
        ts[0] + seq!['%'] + join_pc(ts.drop_first())
    }
}

/// The full pattern a query compiles to.
pub open spec fn search_pattern(q: Seq<char>) -> Seq<char> {
    seq!['%'] + join_pc(split_ws(esc_seq(lower_seq(q)))) + seq!['%']
}

pub open spec fn token_views(ts: Seq<Vec<char>>) -> Seq<Seq<char>> {
    ts.map_values(|v: Vec<char>| v@)
}

/// The tokens of `cs` from position `i` on.
fn split_ws_at(cs: &Vec<char>, i: usize) -> (r: Vec<Vec<char>>)
    requires
        i <= cs@.len(),
    ensures
        token_views(r@) == split_ws(cs@.skip(i as int)),
    decreases cs@.len() - i,
{
    if i == cs.len() {
        let r: Vec<Vec<char>> = Vec::new();
        proof {
            assert(cs@.skip(i as int).len() == 0);
            assert(token_views(r@) =~= split_ws(cs@.skip(i as int)));
        }
        r
    } else if is_ws_char(cs[i]) {
        let r = split_ws_at(cs, i + 1);
        proof {
            assert(cs@.skip(i as int).drop_first() =~= cs@.skip(i as int + 1));
        }
        r
    } else {
        let mut tok: Vec<char> = Vec::new();
        tok.push(cs[i]);
        proof {
            assert(tok@ =~= seq![cs@[i as int]]);
            assert(cs@.skip(i as int).drop_first() =~= cs@.skip(i as int + 1));
        }
        token_cont_at(cs, i + 1, tok)
    }
}

/// Continues the token `tok` through `cs` from position `i` on.
fn token_cont_at(cs: &Vec<char>, i: usize, tok: Vec<char>) -> (r: Vec<Vec<char>>)
    requires
        i <= cs@.len(),
    ensures
        token_views(r@) == token_cont(cs@.skip(i as int), tok@),
    decreases cs@.len() - i,
{
    if i == cs.len() {
        let mut r: Vec<Vec<char>> = Vec::new();
        r.push(tok);
        proof {
            assert(cs@.skip(i as int).len() == 0);
            assert(token_views(r@) =~= token_cont(cs@.skip(i as int), r@[0]@));
        }
        r
    } else if is_ws_char(cs[i]) {
        let rest = split_ws_at(cs, i + 1);
        let ghost tokv = tok@;
        let mut r: Vec<Vec<char>> = Vec::new();
        r.push(tok);
        let mut k: usize = 0;
        while k < rest.len()
            invariant
                k <= rest@.len(),
                r@.len() == k + 1,
                r@[0]@ == tokv,
                forall|l: int| 0 <= l < k ==> (#[trigger] r@[l + 1])@ == rest@[l]@,
            decreases rest@.len() - k,
        {
            let t = copy_chars(&rest[k]);
            proof {
                assert(t@ == rest@[k as int]@);
            }
            r.push(t);
            k = k + 1;
        }
        proof {
            assert(cs@.skip(i as int).drop_first() =~= cs@.skip(i as int + 1));
            assert forall|m: int| 0 <= m < r@.len() implies (#[trigger] r@[m])@ == (seq![tokv]
                + split_ws(cs@.skip(i as int + 1)))[m] by {
                if m > 0 {
                    let l = m - 1;
                    assert(r@[l + 1]@ == rest@[l]@);
                    assert(token_views(rest@)[l] == rest@[l]@);
                }
            }
            assert(token_views(r@) =~= seq![tokv] + split_ws(cs@.skip(i as int + 1)));
        }
        r
    } else {
        let mut tok2 = tok;
        tok2.push(cs[i]);
        proof {
            assert(cs@.skip(i as int).drop_first() =~= cs@.skip(i as int + 1));
        }
        token_cont_at(cs, i + 1, tok2)
    }
}

/// A copy of a character vector.
fn copy_chars(v: &Vec<char>) -> (r: Vec<char>)
    ensures
        r@ == v@,
{
    let mut out: Vec<char> = Vec::new();
    let mut i: usize = 0;
    while i < v.len()
        invariant
            i <= v@.len(),
            out@ == v@.subrange(0, i as int),
        decreases v@.len() - i,
    {
        out.push(v[i]);
        i = i + 1;
        proof {
            assert(out@ =~= v@.subrange(0, i as int));
        }
    }
    proof {
        assert(out@ =~= v@);
    }
    out
}

/// Joins tokens with `%` from position `k` on.
fn join_from(ts: &Vec<Vec<char>>, k: usize) -> (r: Vec<char>)
    requires
        k <= ts@.len(),
    ensures
        r@ == join_pc(token_views(ts@).skip(k as int)),
    decreases ts@.len() - k,
{
    if k == ts.len() {
        let r: Vec<char> = Vec::new();
        proof {
            assert(token_views(ts@).skip(k as int).len() == 0);
            assert(r@ =~= join_pc(token_views(ts@).skip(k as int)));
        }
        r
    } else if k + 1 == ts.len() {
        let r = copy_chars(&ts[k]);
        proof {
            assert(token_views(ts@).skip(k as int).len() == 1);
            assert(token_views(ts@).skip(k as int)[0] == ts@[k as int]@);
        }
        r
    } else {
        let mut r = copy_chars(&ts[k]);
        r.push('%');
        let rest = join_from(ts, k + 1);
        let mut j: usize = 0;
        let ghost head = r@;
        while j < rest.len()
            invariant
                j <= rest@.len(),
                r@ == head + rest@.subrange(0, j as int),
            decreases rest@.len() - j,
        {
            r.push(rest[j]);
            j = j + 1;
            proof {
                assert(r@ =~= head + rest@.subrange(0, j as int));
            }
        }
        proof {
            assert(r@ =~= head + rest@);
            assert(token_views(ts@).skip(k as int).drop_first() =~= token_views(ts@).skip(
                k as int + 1,
            ));
            assert(token_views(ts@).skip(k as int)[0] == ts@[k as int]@);
            assert(r@ =~= join_pc(token_views(ts@).skip(k as int)));
        }
        r
    }
}

/// Compiles a search query into its LIKE pattern.
pub fn build_search_pattern(q: &str) -> (r: String)
    ensures
        r@ == search_pattern(q@),
{
    let lowered = to_lower(q);
    let lcs = str_chars(lowered.as_str());
    let mut escd: Vec<char> = Vec::new();
    let mut i: usize = 0;
    while i < lcs.len()
        invariant
            i <= lcs@.len(),
            lcs@ == lower_seq(q@),
            escd@ == esc_seq(lcs@.subrange(0, i as int)),
        decreases lcs@.len() - i,
    {
        proof {
            assert(lcs@.subrange(0, i as int + 1).drop_last() =~= lcs@.subrange(0, i as int));
        }
        if lcs[i] == '%' {
            escd.push('\\');
            escd.push('%');
        } else {
            escd.push(lcs[i]);
        }
        i = i + 1;
        proof {
            assert(escd@ =~= esc_seq(lcs@.subrange(0, i as int)));
        }
    }
    proof {
        assert(lcs@.subrange(0, lcs@.len() as int) =~= lcs@);
    }
    let tokens = split_ws_at(&escd, 0);
    proof {
        assert(escd@.skip(0) =~= escd@);
    }
    let joined = join_from(&tokens, 0);
    proof {
        assert(token_views(tokens@).skip(0) =~= token_views(tokens@));
    }
    let mut pat: Vec<char> = Vec::new();
    pat.push('%');
    let mut j: usize = 0;
    let ghost mid = joined@;
    while j < joined.len()
        invariant
            j <= joined@.len(),
            pat@ == seq!['%'] + mid.subrange(0, j as int),
            mid == joined@,
        decreases joined@.len() - j,
    {
        pat.push(joined[j]);
        j = j + 1;
        proof {
            assert(pat@ =~= seq!['%'] + mid.subrange(0, j as int));
        }
    }
    pat.push('%');
    proof {
        assert(mid.subrange(0, mid.len() as int) =~= mid);
        assert(pat@ =~= search_pattern(q@));
    }
    chars_string(&pat)
}

/// SQL-LIKE matching: `%` matches any run of characters, `_` any single
/// character, and `\` makes the next pattern character literal.
pub open spec fn like_match(p: Seq<char>, t: Seq<char>) -> bool
    decreases p.len(), t.len(),
{
    if p.len() == 0 {
        t.len() == 0
    } else if p[0] == '%' {
        like_match(p.drop_first(), t) || (t.len() > 0 && like_match(p, t.drop_first()))
    } else if p[0] == '\\' && p.len() >= 2 {
        t.len() > 0 && t[0] == p[1] && like_match(p.skip(2), t.drop_first())
    } else if p[0] == '_' {
        t.len() > 0 && like_match(p.drop_first(), t.drop_first())
    } else {
        t.len() > 0 && t[0] == p[0] && like_match(p.drop_first(), t.drop_first())
    }
}

fn like_match_at(p: &Vec<char>, t: &Vec<char>, pi: usize, ti: usize) -> (r: bool)
    requires
        pi <= p@.len(),
        ti <= t@.len(),
    ensures
        r == like_match(p@.skip(pi as int), t@.skip(ti as int)),
    decreases p@.len() - pi, t@.len() - ti,
{
    proof {
        if pi < p@.len() {
            assert(p@.skip(pi as int).drop_first() =~= p@.skip(pi as int + 1));
        }
        if pi + 2 <= p@.len() {
            assert(p@.skip(pi as int).skip(2) =~= p@.skip(pi as int + 2));
        }
        if ti < t@.len() {
            assert(t@.skip(ti as int).drop_first() =~= t@.skip(ti as int + 1));
        }
    }
    if pi == p.len() {
        ti == t.len()
    } else if p[pi] == '%' {
        if like_match_at(p, t, pi + 1, ti) {
            true
        } else if ti < t.len() {
            like_match_at(p, t, pi, ti + 1)
        } else {
            false
        }
    } else if p[pi] == '\\' && pi + 1 < p.len() {
        if ti < t.len() && t[ti] == p[pi + 1] {
            like_match_at(p, t, pi + 2, ti + 1)
        } else {
            false
        }
    } else if p[pi] == '_' {
        if ti < t.len() {
            like_match_at(p, t, pi + 1, ti + 1)
        } else {
            false
        }
    } else {
        if ti < t.len() && t[ti] == p[pi] {
            like_match_at(p, t, pi + 1, ti + 1)
        } else {
            false
        }
    }
}

/// Whether `t` matches the LIKE pattern `p`.
pub fn like_matches(p: &str, t: &str) -> (r: bool)
    ensures
        r == like_match(p@, t@),
{
    let pc = str_chars(p);
    let tc = str_chars(t);
    let r = like_match_at(&pc, &tc, 0, 0);
    proof {
        assert(pc@.skip(0) =~= pc@);
        assert(tc@.skip(0) =~= tc@);
    }
    r
}

} // verus!
