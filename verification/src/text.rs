//! Character and string utilities shared by the whole library: ASCII case
//! folding, substring search, splitting a fetched list into trimmed lines,
//! and decimal formatting of integers.

use vstd::prelude::*;

verus! {

/// Maps an ASCII lowercase letter to its uppercase form; leaves every other
/// character unchanged.
pub open spec fn upper_char(c: char) -> char {
    match c {
        'a' => 'A', 'b' => 'B', 'c' => 'C', 'd' => 'D', 'e' => 'E', 'f' => 'F',
        'g' => 'G', 'h' => 'H', 'i' => 'I', 'j' => 'J', 'k' => 'K', 'l' => 'L',
        'm' => 'M', 'n' => 'N', 'o' => 'O', 'p' => 'P', 'q' => 'Q', 'r' => 'R',
        's' => 'S', 't' => 'T', 'u' => 'U', 'v' => 'V', 'w' => 'W', 'x' => 'X',
        'y' => 'Y', 'z' => 'Z',
        _ => c,
    }
}

/// Maps an ASCII uppercase letter to its lowercase form; leaves every other
/// character unchanged.
pub open spec fn lower_char(c: char) -> char {
    match c {
        'A' => 'a', 'B' => 'b', 'C' => 'c', 'D' => 'd', 'E' => 'e', 'F' => 'f',
        'G' => 'g', 'H' => 'h', 'I' => 'i', 'J' => 'j', 'K' => 'k', 'L' => 'l',
        'M' => 'm', 'N' => 'n', 'O' => 'o', 'P' => 'p', 'Q' => 'q', 'R' => 'r',
        'S' => 's', 'T' => 't', 'U' => 'u', 'V' => 'v', 'W' => 'w', 'X' => 'x',
        'Y' => 'y', 'Z' => 'z',
        _ => c,
    }
}

pub open spec fn upper_seq(s: Seq<char>) -> Seq<char> {
    s.map_values(|c: char| upper_char(c))
}

pub open spec fn lower_seq(s: Seq<char>) -> Seq<char> {
    s.map_values(|c: char| lower_char(c))
}

pub fn to_upper_char(c: char) -> (r: char)
    ensures
        r == upper_char(c),
{
    match c {
        'a' => 'A', 'b' => 'B', 'c' => 'C', 'd' => 'D', 'e' => 'E', 'f' => 'F',
        'g' => 'G', 'h' => 'H', 'i' => 'I', 'j' => 'J', 'k' => 'K', 'l' => 'L',
        'm' => 'M', 'n' => 'N', 'o' => 'O', 'p' => 'P', 'q' => 'Q', 'r' => 'R',
        's' => 'S', 't' => 'T', 'u' => 'U', 'v' => 'V', 'w' => 'W', 'x' => 'X',
        'y' => 'Y', 'z' => 'Z',
        _ => c,
    }
}

pub fn to_lower_char(c: char) -> (r: char)
    ensures
        r == lower_char(c),
{
    match c {
        'A' => 'a', 'B' => 'b', 'C' => 'c', 'D' => 'd', 'E' => 'e', 'F' => 'f',
        'G' => 'g', 'H' => 'h', 'I' => 'i', 'J' => 'j', 'K' => 'k', 'L' => 'l',
        'M' => 'm', 'N' => 'n', 'O' => 'o', 'P' => 'p', 'Q' => 'q', 'R' => 'r',
        'S' => 's', 'T' => 't', 'U' => 'u', 'V' => 'v', 'W' => 'w', 'X' => 'x',
        'Y' => 'y', 'Z' => 'z',
        _ => c,
    }
}

/// The characters of `s`, collected into a vector.
pub fn str_chars(s: &str) -> (r: Vec<char>)
    ensures
        r@ == s@,
{
    let n = s.unicode_len();
    let mut r: Vec<char> = Vec::new();
    let mut i: usize = 0;
    while i < n
        invariant
            n == s@.len(),
            i <= n,
            r@ == s@.subrange(0, i as int),
        decreases n - i,
    {
        r.push(s.get_char(i));
        i = i + 1;
        proof {
            assert(r@ =~= s@.subrange(0, i as int));
        }
    }
    proof {
        assert(r@ =~= s@);
    }
    r
}

/// Relies on `String::push`: appends one character at the end of the string.
#[verifier::external_body]
pub fn push_char(s: &mut String, c: char)
    ensures
        final(s)@ == old(s)@.push(c),
{
    s.push(c);
}

/// A string holding exactly the characters of `v`.
pub fn chars_string(v: &Vec<char>) -> (r: String)
    ensures
        r@ == v@,
{
    let mut r = String::new();
    let mut i: usize = 0;
    while i < v.len()
        invariant
            i <= v@.len(),
            r@ == v@.subrange(0, i as int),
        decreases v@.len() - i,
    {
        push_char(&mut r, v[i]);
        i = i + 1;
        proof {
            assert(r@ =~= v@.subrange(0, i as int));
        }
    }
    proof {
        assert(r@ =~= v@);
    }
    r
}

/// Uppercases the ASCII letters of `s`, leaving all other characters alone.
pub fn to_upper(s: &str) -> (r: String)
    ensures
        r@ == upper_seq(s@),
{
    let cs = str_chars(s);
    let mut out: Vec<char> = Vec::new();
    let mut i: usize = 0;
    while i < cs.len()
        invariant
            i <= cs@.len(),
            cs@ == s@,
            out@ == upper_seq(s@).subrange(0, i as int),
        decreases cs@.len() - i,
    {
        out.push(to_upper_char(cs[i]));
        i = i + 1;
        proof {
            assert(out@ =~= upper_seq(s@).subrange(0, i as int));
        }
    }
    proof {
        assert(out@ =~= upper_seq(s@));
    }
    chars_string(&out)
}

/// Lowercases the ASCII letters of `s`, leaving all other characters alone.
pub fn to_lower(s: &str) -> (r: String)
    ensures
        r@ == lower_seq(s@),
{
    let cs = str_chars(s);
    let mut out: Vec<char> = Vec::new();
    let mut i: usize = 0;
    while i < cs.len()
        invariant
            i <= cs@.len(),
            cs@ == s@,
            out@ == lower_seq(s@).subrange(0, i as int),
        decreases cs@.len() - i,
    {
        out.push(to_lower_char(cs[i]));
        i = i + 1;
        proof {
            assert(out@ =~= lower_seq(s@).subrange(0, i as int));
        }
    }
    proof {
        assert(out@ =~= lower_seq(s@));
    }
    chars_string(&out)
}

/// Uppercasing is idempotent.
pub proof fn lemma_upper_idempotent(s: Seq<char>)
    ensures
        upper_seq(upper_seq(s)) == upper_seq(s),
{
    assert forall|i: int| 0 <= i < s.len() implies upper_char(#[trigger] upper_seq(s)[i])
        == upper_seq(s)[i] by {
        assert(upper_char(upper_char(s[i])) == upper_char(s[i]));
    }
    assert(upper_seq(upper_seq(s)) =~= upper_seq(s));
}

/// Uppercasing swallows a prior lowercasing.
pub proof fn lemma_upper_of_lower(s: Seq<char>)
    ensures
        upper_seq(lower_seq(s)) == upper_seq(s),
{
    assert forall|i: int| 0 <= i < s.len() implies upper_char(#[trigger] lower_seq(s)[i])
        == upper_char(s[i]) by {
        assert(upper_char(lower_char(s[i])) == upper_char(s[i]));
    }
    assert(upper_seq(lower_seq(s)) =~= upper_seq(s));
}

/// `p` occurs in `t` starting at position `i`.
pub open spec fn is_match_at(t: Seq<char>, p: Seq<char>, i: int) -> bool {
    0 <= i && i + p.len() <= t.len() && t.subrange(i, i + p.len() as int) == p
}

/// `p` occurs somewhere in `t`.
pub open spec fn contains_seq(t: Seq<char>, p: Seq<char>) -> bool {
    exists|i: int| is_match_at(t, p, i)
}

/// Whether `p` occurs in `t` at position `i`.
pub fn match_at(t: &Vec<char>, p: &Vec<char>, i: usize) -> (r: bool)
    requires
        i + p@.len() <= t@.len(),
    ensures
        r == is_match_at(t@, p@, i as int),
{
    let tn = t.len();
    let pn = p.len();
    let mut j: usize = 0;
    while j < pn
        invariant
            tn == t@.len(),
            pn == p@.len(),
            i + pn <= tn,
            j <= pn,
            forall|k: int| 0 <= k < j ==> t@[i + k] == p@[k],
        decreases pn - j,
    {
        if t[i + j] != p[j] {
            proof {
                assert(t@.subrange(i as int, i + p@.len() as int)[j as int] != p@[j as int]);
            }
            return false;
        }
        j = j + 1;
    }
    proof {
        assert(t@.subrange(i as int, i + p@.len() as int) =~= p@);
    }
    true
}

/// Whether `p` occurs anywhere in `t`.
pub fn contains_sub(t: &Vec<char>, p: &Vec<char>) -> (r: bool)
    ensures
        r == contains_seq(t@, p@),
{
    if p.len() > t.len() {
        proof {
            assert(forall|i: int| !is_match_at(t@, p@, i));
        }
        return false;
    }
    let mut i: usize = 0;
    let last = t.len() - p.len();
    loop
        invariant
            p@.len() <= t@.len(),
            last == t@.len() - p@.len(),
            i <= last,
            forall|k: int| 0 <= k < i ==> !is_match_at(t@, p@, k),
        decreases last - i,
    {
        if match_at(t, p, i) {
            return true;
        }
        if i == last {
            proof {
                assert(forall|k: int| !is_match_at(t@, p@, k));
            }
            return false;
        }
        i = i + 1;
    }
}

/// Whether `p` occurs anywhere in `t`, both given as string slices.
pub fn str_contains(t: &str, p: &str) -> (r: bool)
    ensures
        r == contains_seq(t@, p@),
{
    let tc = str_chars(t);
    let pc = str_chars(p);
    contains_sub(&tc, &pc)
}


/// ASCII whitespace, as the tokenizers below understand it.
pub open spec fn is_ascii_ws(c: char) -> bool {
    c == ' ' || c == '\t' || c == '\n' || c == '\r' || c == '\u{c}'
}

pub fn is_ws_char(c: char) -> (r: bool)
    ensures
        r == is_ascii_ws(c),
{
    c == ' ' || c == '\t' || c == '\n' || c == '\r' || c == '\u{c}'
}

/// The string without its leading ASCII whitespace.
pub open spec fn trim_start_seq(s: Seq<char>) -> Seq<char>
    decreases s.len(),
{
    if s.len() > 0 && is_ascii_ws(s[0]) {
        trim_start_seq(s.drop_first())
    } else {
        s
    }
}

/// The string without its trailing ASCII whitespace.
pub open spec fn trim_end_seq(s: Seq<char>) -> Seq<char>
    decreases s.len(),
{
    if s.len() > 0 && is_ascii_ws(s.last()) {
        trim_end_seq(s.drop_last())
    } else {
        s
    }
}

/// The string without leading and trailing ASCII whitespace.
pub open spec fn trim_seq(s: Seq<char>) -> Seq<char> {
    trim_end_seq(trim_start_seq(s))
}

proof fn lemma_trim_start_skip(s: Seq<char>, a: int)
    requires
        0 <= a <= s.len(),
        forall|k: int| 0 <= k < a ==> is_ascii_ws(#[trigger] s[k]),
        a < s.len() ==> !is_ascii_ws(s[a]),
    ensures
        trim_start_seq(s) == s.skip(a),
    decreases a,
{
    if a == 0 {
        assert(s.skip(0) =~= s);
    } else {
        assert(is_ascii_ws(s[0]));
        assert forall|k: int| 0 <= k < a - 1 implies is_ascii_ws(#[trigger] s.drop_first()[k]) by {
            assert(s.drop_first()[k] == s[k + 1]);
        }
        lemma_trim_start_skip(s.drop_first(), a - 1);
        assert(s.drop_first().skip(a - 1) =~= s.skip(a));
    }
}

proof fn lemma_trim_end_take(s: Seq<char>, b: int)
    requires
        0 <= b <= s.len(),
        forall|k: int| b <= k < s.len() ==> is_ascii_ws(#[trigger] s[k]),
        b > 0 ==> !is_ascii_ws(s[b - 1]),
    ensures
        trim_end_seq(s) == s.subrange(0, b),
    decreases s.len() - b,
{
    if b == s.len() {
        assert(s.subrange(0, b) =~= s);
    } else {
        assert(is_ascii_ws(s.last()));
        assert forall|k: int| b <= k < s.drop_last().len() implies is_ascii_ws(
            #[trigger] s.drop_last()[k],
        ) by {
            assert(s.drop_last()[k] == s[k]);
        }
        lemma_trim_end_take(s.drop_last(), b);
        assert(s.drop_last().subrange(0, b) =~= s.subrange(0, b));
    }
}

/// Strips leading and trailing ASCII whitespace.
pub fn trim_chars(v: &Vec<char>) -> (r: Vec<char>)
    ensures
        r@ == trim_seq(v@),
{
    let n = v.len();
    let mut a: usize = 0;
    while a < n && is_ws_char(v[a])
        invariant
            n == v@.len(),
            a <= n,
            forall|k: int| 0 <= k < a ==> is_ascii_ws(#[trigger] v@[k]),
        decreases n - a,
    {
        a = a + 1;
    }
    let mut b: usize = n;
    while b > a && is_ws_char(v[b - 1])
        invariant
            n == v@.len(),
            a <= b <= n,
            forall|k: int| 0 <= k < a ==> is_ascii_ws(#[trigger] v@[k]),
            a < n ==> !is_ascii_ws(v@[a as int]),
            forall|k: int| b <= k < n ==> is_ascii_ws(#[trigger] v@[k]),
        decreases b,
    {
        b = b - 1;
    }
    let mut out: Vec<char> = Vec::new();
    let mut i: usize = a;
    while i < b
        invariant
            n == v@.len(),
            a <= i <= b <= n,
            out@ == v@.subrange(a as int, i as int),
        decreases b - i,
    {
        out.push(v[i]);
        i = i + 1;
        proof {
            assert(out@ =~= v@.subrange(a as int, i as int));
        }
    }
    proof {
        lemma_trim_start_skip(v@, a as int);
        let sk = v@.skip(a as int);
        assert forall|k: int| (b - a) <= k < sk.len() implies is_ascii_ws(#[trigger] sk[k]) by {
            assert(sk[k] == v@[k + a]);
        }
        if b > a {
            assert(sk[b - a - 1] == v@[b as int - 1]);
        }
        lemma_trim_end_take(sk, b - a);
        assert(sk.subrange(0, b - a) =~= v@.subrange(a as int, b as int));
        assert(out@ =~= v@.subrange(a as int, b as int));
    }
    out
}

/// The segments of `s` between newline characters, the current partial
/// segment given as `cur`; empty segments are kept.
pub open spec fn split_nl(s: Seq<char>, cur: Seq<char>) -> Seq<Seq<char>>
    decreases s.len(),
{
    if s.len() == 0 {
        seq![cur]
    } else if s[0] == '\n' {
        seq![cur] + split_nl(s.drop_first(), Seq::empty())
    } else {
        split_nl(s.drop_first(), cur.push(s[0]))
    }
}

/// The non-blank lines of a fetched list, each trimmed of ASCII
/// whitespace.
pub open spec fn clean_lines(s: Seq<char>) -> Seq<Seq<char>> {
    split_nl(s, Seq::empty()).map_values(|l: Seq<char>| trim_seq(l)).filter(
        |l: Seq<char>| l.len() > 0,
    )
}

pub open spec fn string_views(v: Seq<String>) -> Seq<Seq<char>> {
    v.map_values(|s: String| s@)
}

/// How `filter` grows when one element is appended (general form).
pub proof fn lemma_filter_push_gen<A>(s: Seq<A>, pred: spec_fn(A) -> bool, e: A)
    ensures
        s.push(e).filter(pred) == if pred(e) {
            s.filter(pred).push(e)
        } else {
            s.filter(pred)
        },
{
    reveal(Seq::filter);
    assert(s.push(e).drop_last() =~= s);
    assert(s.push(e).last() == e);
}

fn clean_lines_from(cs: &Vec<char>, i: usize, cur: Vec<char>) -> (r: Vec<String>)
    requires
        i <= cs@.len(),
    ensures
        string_views(r@) == split_nl(cs@.skip(i as int), cur@).map_values(
            |l: Seq<char>| trim_seq(l),
        ).filter(|l: Seq<char>| l.len() > 0),
    decreases cs@.len() - i,
{
    if i == cs.len() {
        let t = trim_chars(&cur);
        let mut r: Vec<String> = Vec::new();
        proof {
            assert(cs@.skip(i as int).len() == 0);
            assert(split_nl(cs@.skip(i as int), cur@) =~= seq![cur@]);
            let mapped = seq![cur@].map_values(|l: Seq<char>| trim_seq(l));
            assert(mapped =~= Seq::<Seq<char>>::empty().push(trim_seq(cur@)));
            lemma_filter_push_gen(
                Seq::<Seq<char>>::empty(),
                |l: Seq<char>| l.len() > 0,
                trim_seq(cur@),
            );
            reveal(Seq::filter);
        }
        if t.len() > 0 {
            r.push(crate::text::chars_string(&t));
            proof {
                assert(string_views(r@) =~= Seq::<Seq<char>>::empty().push(trim_seq(cur@)));
            }
        } else {
            proof {
                assert(string_views(r@) =~= Seq::<Seq<char>>::empty());
            }
        }
        r
    } else if cs[i] == '\n' {
        let t = trim_chars(&cur);
        let ghost curv = cur@;
        let rest = clean_lines_from(cs, i + 1, Vec::new());
        let mut r: Vec<String> = Vec::new();
        let keep = t.len() > 0;
        if keep {
            r.push(crate::text::chars_string(&t));
        }
        let mut k: usize = 0;
        let ghost base = r@.len() as int;
        while k < rest.len()
            invariant
                k <= rest@.len(),
                base == (if keep { 1int } else { 0int }),
                r@.len() == base + k,
                keep ==> r@[0]@ == trim_seq(curv),
                forall|l: int| 0 <= l < k ==> (#[trigger] r@[base + l])@ == rest@[l]@,
            decreases rest@.len() - k,
        {
            let sc = rest[k].clone();
            proof {
                assert(sc@ == rest@[k as int]@);
            }
            r.push(sc);
            k = k + 1;
        }
        proof {
            assert(cs@.skip(i as int).drop_first() =~= cs@.skip(i as int + 1));
            let tail = split_nl(cs@.skip(i as int + 1), Seq::<char>::empty());
            assert(split_nl(cs@.skip(i as int), curv) == seq![curv] + tail);
            let tm = |l: Seq<char>| trim_seq(l);
            let nz = |l: Seq<char>| l.len() > 0;
            assert((seq![curv] + tail).map_values(tm) =~= seq![trim_seq(curv)]
                + tail.map_values(tm));
            Seq::filter_distributes_over_add(seq![trim_seq(curv)], tail.map_values(tm), nz);
            assert(seq![trim_seq(curv)] =~= Seq::<Seq<char>>::empty().push(trim_seq(curv)));
            lemma_filter_push_gen(Seq::<Seq<char>>::empty(), nz, trim_seq(curv));
            reveal(Seq::filter);
            let head = seq![trim_seq(curv)].filter(nz);
            assert forall|m: int| 0 <= m < r@.len() implies (#[trigger] r@[m])@ == (head
                + tail.map_values(tm).filter(nz))[m] by {
                if m >= base {
                    let l = m - base;
                    assert(r@[base + l]@ == rest@[l]@);
                    assert(string_views(rest@)[l] == rest@[l]@);
                }
            }
            assert(string_views(r@) =~= head + tail.map_values(tm).filter(nz));
        }
        r
    } else {
        let mut cur2 = cur;
        cur2.push(cs[i]);
        proof {
            assert(cs@.skip(i as int).drop_first() =~= cs@.skip(i as int + 1));
        }
        clean_lines_from(cs, i + 1, cur2)
    }
}

/// Splits a fetched newline-delimited list into its non-blank trimmed
/// lines.
pub fn parse_line_list(body: &str) -> (r: Vec<String>)
    ensures
        string_views(r@) == clean_lines(body@),
{
    let cs = str_chars(body);
    let r = clean_lines_from(&cs, 0, Vec::new());
    proof {
        assert(cs@.skip(0) =~= cs@);
    }
    r
}

/// `s` with every occurrence of `pat` removed, scanning left to right.
pub open spec fn remove_all(s: Seq<char>, pat: Seq<char>) -> Seq<char>
    decreases s.len(),
{
    if pat.len() == 0 || s.len() == 0 {
        s
    } else if s.len() >= pat.len() && s.subrange(0, pat.len() as int) == pat {
        remove_all(s.skip(pat.len() as int), pat)
    } else {
        seq![s[0]] + remove_all(s.drop_first(), pat)
    }
}

fn remove_all_from(cs: &Vec<char>, i: usize, pat: &Vec<char>) -> (r: Vec<char>)
    requires
        i <= cs@.len(),
        pat@.len() > 0,
    ensures
        r@ == remove_all(cs@.skip(i as int), pat@),
    decreases cs@.len() - i,
{
    let n = cs.len();
    if i == n {
        let r: Vec<char> = Vec::new();
        proof {
            assert(cs@.skip(i as int).len() == 0);
        }
        return r;
    }
    if n - i >= pat.len() && match_at(cs, pat, i) {
        proof {
            assert(cs@.skip(i as int).subrange(0, pat@.len() as int) =~= cs@.subrange(
                i as int,
                i + pat@.len(),
            ));
            assert(cs@.skip(i as int).skip(pat@.len() as int) =~= cs@.skip(i + pat@.len()));
        }
        remove_all_from(cs, i + pat.len(), pat)
    } else {
        proof {
            if cs@.skip(i as int).len() >= pat@.len() {
                assert(cs@.skip(i as int).subrange(0, pat@.len() as int) =~= cs@.subrange(
                    i as int,
                    i + pat@.len(),
                ));
            }
            assert(cs@.skip(i as int).drop_first() =~= cs@.skip(i as int + 1));
        }
        let rest = remove_all_from(cs, i + 1, pat);
        let mut r: Vec<char> = Vec::new();
        r.push(cs[i]);
        let mut k: usize = 0;
        while k < rest.len()
            invariant
                k <= rest@.len(),
                r@.len() == k + 1,
                r@[0] == cs@[i as int],
                r@.subrange(1, r@.len() as int) == rest@.subrange(0, k as int),
            decreases rest@.len() - k,
        {
            r.push(rest[k]);
            k = k + 1;
            proof {
                assert(r@.subrange(1, r@.len() as int) =~= rest@.subrange(0, k as int));
            }
        }
        proof {
            assert(rest@.subrange(0, rest@.len() as int) =~= rest@);
            assert(r@ =~= seq![cs@[i as int]] + rest@);
        }
        r
    }
}

/// Removes every occurrence of `pat` from `s`.
pub fn remove_occurrences(s: &str, pat: &str) -> (r: String)
    requires
        pat@.len() > 0,
    ensures
        r@ == remove_all(s@, pat@),
{
    let cs = str_chars(s);
    let pc = str_chars(pat);
    let out = remove_all_from(&cs, 0, &pc);
    proof {
        assert(cs@.skip(0) =~= cs@);
    }
    chars_string(&out)
}

/// The decimal digit character for a value below ten.
pub open spec fn digit_char(n: int) -> char {
    if n == 0 { '0' } else if n == 1 { '1' } else if n == 2 { '2' }
    else if n == 3 { '3' } else if n == 4 { '4' } else if n == 5 { '5' }
    else if n == 6 { '6' } else if n == 7 { '7' } else if n == 8 { '8' }
    else { '9' }
}

/// The decimal digits of a non-negative number, most significant first.
pub open spec fn dec_digits(n: nat) -> Seq<char>
    decreases n,
{
    if n < 10 {
        seq![digit_char(n as int)]
    } else {
        dec_digits(n / 10).push(digit_char((n % 10) as int))
    }
}

/// The decimal rendering of a signed number.
pub open spec fn dec_str(v: int) -> Seq<char> {
    if v < 0 {
        seq!['-'] + dec_digits((-v) as nat)
    } else {
        dec_digits(v as nat)
    }
}

fn digit_of(n: u64) -> (r: char)
    requires
        n < 10,
    ensures
        r == digit_char(n as int),
{
    match n {
        0 => '0', 1 => '1', 2 => '2', 3 => '3', 4 => '4', 5 => '5', 6 => '6', 7 => '7',
        8 => '8', _ => '9',
    }
}

fn u64_dec_chars(n: u64) -> (r: Vec<char>)
    ensures
        r@ == dec_digits(n as nat),
    decreases n,
{
    if n < 10 {
        let mut r: Vec<char> = Vec::new();
        r.push(digit_of(n));
        proof {
            assert(r@ =~= seq![digit_char(n as int)]);
        }
        r
    } else {
        let mut r = u64_dec_chars(n / 10);
        r.push(digit_of(n % 10));
        r
    }
}

/// Renders an unsigned number in decimal.
pub fn u64_to_dec(n: u64) -> (r: String)
    ensures
        r@ == dec_digits(n as nat),
{
    let v = u64_dec_chars(n);
    chars_string(&v)
}

/// Renders a signed number in decimal.
pub fn i64_to_dec(v: i64) -> (r: String)
    ensures
        r@ == dec_str(v as int),
{
    if v < 0 {
        let mag: u64 = (-(v as i128)) as u64;
        let digits = u64_dec_chars(mag);
        let mut out: Vec<char> = Vec::new();
        out.push('-');
        let mut k: usize = 0;
        while k < digits.len()
            invariant
                k <= digits@.len(),
                out@ == seq!['-'] + digits@.subrange(0, k as int),
            decreases digits@.len() - k,
        {
            out.push(digits[k]);
            k = k + 1;
            proof {
                assert(out@ =~= seq!['-'] + digits@.subrange(0, k as int));
            }
        }
        proof {
            assert(digits@.subrange(0, digits@.len() as int) =~= digits@);
        }
        chars_string(&out)
    } else {
        u64_to_dec(v as u64)
    }
}

} // verus!
