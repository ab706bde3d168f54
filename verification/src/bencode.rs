//! The bencoded scrape response of an HTTP tracker: the `files` dictionary
//! maps each raw 20-byte info-hash to a dictionary carrying `complete` and
//! `incomplete` counts. The parser walks exactly that grammar — integers,
//! byte strings, and nested lists or dictionaries it skips — and is defined
//! against a specification of the same walk. The walk carries a fuel bound
//! well above what any input of the allowed length can consume.

use vstd::prelude::*;

verus! {

pub open spec fn is_digit_u8(b: u8) -> bool {
    0x30 <= b && b <= 0x39
}

/// Reads a run of decimal digits, extending `acc`; numbers beyond the
/// 64-bit range are rejected.
pub open spec fn sp_digits(b: Seq<u8>, pos: int, acc: int, fuel: nat) -> Option<(int, int)>
    decreases fuel,
{
    if fuel == 0 {
        None
    } else if 0 <= pos < b.len() && is_digit_u8(b[pos]) {
        let acc2 = acc * 10 + (b[pos] - 0x30);
        if acc2 > 0x7FFF_FFFF_FFFF_FFFF {
            None
        } else {
            sp_digits(b, pos + 1, acc2, (fuel - 1) as nat)
        }
    } else {
        Some((acc, pos))
    }
}

/// A byte string `<len>:<bytes>`.
pub open spec fn sp_bstr(b: Seq<u8>, pos: int, fuel: nat) -> Option<(Seq<u8>, int)>
    decreases fuel,
{
    if fuel == 0 {
        None
    } else if !(0 <= pos < b.len() && is_digit_u8(b[pos])) {
        None
    } else {
        match sp_digits(b, pos, 0, (fuel - 1) as nat) {
            Some((n, p2)) => {
                if p2 < b.len() && b[p2] == 0x3A && p2 + 1 + n <= b.len() {
                    Some((b.subrange(p2 + 1, p2 + 1 + n), p2 + 1 + n))
                } else {
                    None
                }
            },
            None => None,
        }
    }
}

/// An integer `i<digits>e`, optionally negative.
pub open spec fn sp_int(b: Seq<u8>, pos: int, fuel: nat) -> Option<(int, int)>
    decreases fuel,
{
    if fuel == 0 {
        None
    } else if !(0 <= pos < b.len() && b[pos] == 0x69) {
        None
    } else {
        let neg = pos + 1 < b.len() && b[pos + 1] == 0x2D;
        let p1 = if neg {
            pos + 2
        } else {
            pos + 1
        };
        if !(p1 < b.len() && is_digit_u8(b[p1])) {
            None
        } else {
            match sp_digits(b, p1, 0, (fuel - 1) as nat) {
                Some((n, p2)) => {
                    if p2 < b.len() && b[p2] == 0x65 {
                        Some(
                            (
                                if neg {
                                    -n
                                } else {
                                    n
                                },
                                p2 + 1,
                            ),
                        )
                    } else {
                        None
                    }
                },
                None => None,
            }
        }
    }
}

/// Skips one value of any shape.
pub open spec fn sp_skip(b: Seq<u8>, pos: int, fuel: nat) -> Option<int>
    decreases fuel,
{
    if fuel == 0 || !(0 <= pos < b.len()) {
        None
    } else if b[pos] == 0x69 {
        match sp_int(b, pos, (fuel - 1) as nat) {
            Some((_v, e)) => Some(e),
            None => None,
        }
    } else if is_digit_u8(b[pos]) {
        match sp_bstr(b, pos, (fuel - 1) as nat) {
            Some((_s, e)) => Some(e),
            None => None,
        }
    } else if b[pos] == 0x6C {
        sp_skip_items(b, pos + 1, (fuel - 1) as nat)
    } else if b[pos] == 0x64 {
        sp_skip_pairs(b, pos + 1, (fuel - 1) as nat)
    } else {
        None
    }
}

/// Skips list items up to the closing `e`.
pub open spec fn sp_skip_items(b: Seq<u8>, pos: int, fuel: nat) -> Option<int>
    decreases fuel,
{
    if fuel == 0 || !(0 <= pos < b.len()) {
        None
    } else if b[pos] == 0x65 {
        Some(pos + 1)
    } else {
        match sp_skip(b, pos, (fuel - 1) as nat) {
            Some(e) => sp_skip_items(b, e, (fuel - 1) as nat),
            None => None,
        }
    }
}

/// Skips dictionary pairs up to the closing `e`.
pub open spec fn sp_skip_pairs(b: Seq<u8>, pos: int, fuel: nat) -> Option<int>
    decreases fuel,
{
    if fuel == 0 || !(0 <= pos < b.len()) {
        None
    } else if b[pos] == 0x65 {
        Some(pos + 1)
    } else {
        match sp_bstr(b, pos, (fuel - 1) as nat) {
            Some((_k, e1)) => match sp_skip(b, e1, (fuel - 1) as nat) {
                Some(e2) => sp_skip_pairs(b, e2, (fuel - 1) as nat),
                None => None,
            },
            None => None,
        }
    }
}

pub open spec fn key_complete() -> Seq<u8> {
    seq![0x63u8, 0x6Fu8, 0x6Du8, 0x70u8, 0x6Cu8, 0x65u8, 0x74u8, 0x65u8]
}

pub open spec fn key_incomplete() -> Seq<u8> {
    seq![0x69u8, 0x6Eu8, 0x63u8, 0x6Fu8, 0x6Du8, 0x70u8, 0x6Cu8, 0x65u8, 0x74u8, 0x65u8]
}

pub open spec fn key_files() -> Seq<u8> {
    seq![0x66u8, 0x69u8, 0x6Cu8, 0x65u8, 0x73u8]
}

/// One hash's statistics dictionary: `complete` and `incomplete` are
/// required (the last occurrence wins), everything else is skipped.
pub open spec fn sp_stats_pairs(
    b: Seq<u8>,
    pos: int,
    c: Option<int>,
    ic: Option<int>,
    fuel: nat,
) -> Option<(int, int, int)>
    decreases fuel,
{
    if fuel == 0 || !(0 <= pos < b.len()) {
        None
    } else if b[pos] == 0x65 {
        match (c, ic) {
            (Some(cv), Some(iv)) => Some((cv, iv, pos + 1)),
            _ => None,
        }
    } else {
        match sp_bstr(b, pos, (fuel - 1) as nat) {
            Some((key, e1)) => {
                if key == key_complete() {
                    match sp_int(b, e1, (fuel - 1) as nat) {
                        Some((v, e2)) => sp_stats_pairs(b, e2, Some(v), ic, (fuel - 1) as nat),
                        None => None,
                    }
                } else if key == key_incomplete() {
                    match sp_int(b, e1, (fuel - 1) as nat) {
                        Some((v, e2)) => sp_stats_pairs(b, e2, c, Some(v), (fuel - 1) as nat),
                        None => None,
                    }
                } else {
                    match sp_skip(b, e1, (fuel - 1) as nat) {
                        Some(e2) => sp_stats_pairs(b, e2, c, ic, (fuel - 1) as nat),
                        None => None,
                    }
                }
            },
            None => None,
        }
    }
}

/// The pairs of the `files` dictionary: each key maps to a statistics
/// dictionary; the triples accumulate in order.
pub open spec fn sp_files_pairs(
    b: Seq<u8>,
    pos: int,
    acc: Seq<(Seq<u8>, int, int)>,
    fuel: nat,
) -> Option<(Seq<(Seq<u8>, int, int)>, int)>
    decreases fuel,
{
    if fuel == 0 || !(0 <= pos < b.len()) {
        None
    } else if b[pos] == 0x65 {
        Some((acc, pos + 1))
    } else {
        match sp_bstr(b, pos, (fuel - 1) as nat) {
            Some((key, e1)) => {
                if e1 < b.len() && b[e1] == 0x64 {
                    match sp_stats_pairs(b, e1 + 1, None, None, (fuel - 1) as nat) {
                        Some((cv, iv, e2)) => sp_files_pairs(
                            b,
                            e2,
                            acc.push((key, cv, iv)),
                            (fuel - 1) as nat,
                        ),
                        None => None,
                    }
                } else {
                    None
                }
            },
            None => None,
        }
    }
}

/// The top-level response dictionary: the `files` key yields the stats,
/// every other key is skipped; a response without `files` yields none.
pub open spec fn sp_top_pairs(
    b: Seq<u8>,
    pos: int,
    acc: Seq<(Seq<u8>, int, int)>,
    fuel: nat,
) -> Option<Seq<(Seq<u8>, int, int)>>
    decreases fuel,
{
    if fuel == 0 || !(0 <= pos < b.len()) {
        None
    } else if b[pos] == 0x65 {
        Some(acc)
    } else {
        match sp_bstr(b, pos, (fuel - 1) as nat) {
            Some((key, e1)) => {
                if key == key_files() {
                    if e1 < b.len() && b[e1] == 0x64 {
                        match sp_files_pairs(b, e1 + 1, acc, (fuel - 1) as nat) {
                            Some((acc2, e2)) => sp_top_pairs(b, e2, acc2, (fuel - 1) as nat),
                            None => None,
                        }
                    } else {
                        None
                    }
                } else {
                    match sp_skip(b, e1, (fuel - 1) as nat) {
                        Some(e2) => sp_top_pairs(b, e2, acc, (fuel - 1) as nat),
                        None => None,
                    }
                }
            },
            None => None,
        }
    }
}

/// The fuel the walk starts with; ample for any input of the allowed
/// length, since every step consumes input.
pub open spec fn parse_fuel(b: Seq<u8>) -> nat {
    (3 * b.len() + 16) as nat
}

/// The scrape statistics a response denotes: the hash-keyed triples of the
/// `files` dictionary, in response order.
pub open spec fn spec_scrape_files(b: Seq<u8>) -> Option<Seq<(Seq<u8>, int, int)>> {
    if b.len() > 0 && b[0] == 0x64 {
        sp_top_pairs(b, 1, Seq::empty(), parse_fuel(b))
    } else {
        None
    }
}

// ---- the executable walk, one function per specification function ----

fn x_digits(b: &Vec<u8>, pos: usize, acc: i64, fuel: usize) -> (r: Option<(i64, usize)>)
    requires
        pos <= b@.len(),
        acc >= 0,
    ensures
        r is Some ==> sp_digits(b@, pos as int, acc as int, fuel as nat) == Some(
            (r->Some_0.0 as int, r->Some_0.1 as int),
        ) && pos <= r->Some_0.1 <= b@.len() && r->Some_0.0 >= 0,
        r is None ==> sp_digits(b@, pos as int, acc as int, fuel as nat) is None,
    decreases fuel,
{
    let blen = b.len();
    if fuel == 0 {
        None
    } else if pos < blen && 0x30 <= b[pos] && b[pos] <= 0x39 {
        let d = (b[pos] - 0x30) as i64;
        let acc2: i128 = (acc as i128) * 10 + (d as i128);
        if acc2 > 0x7FFF_FFFF_FFFF_FFFF {
            None
        } else {
            x_digits(b, pos + 1, acc2 as i64, fuel - 1)
        }
    } else {
        Some((acc, pos))
    }
}

fn x_bstr(b: &Vec<u8>, pos: usize, fuel: usize) -> (r: Option<(Vec<u8>, usize)>)
    requires
        pos <= b@.len(),
    ensures
        r is Some ==> sp_bstr(b@, pos as int, fuel as nat) == Some(
            (r->Some_0.0@, r->Some_0.1 as int),
        ) && pos <= r->Some_0.1 <= b@.len(),
        r is None ==> sp_bstr(b@, pos as int, fuel as nat) is None,
    decreases fuel,
{
    let blen = b.len();
    if fuel == 0 {
        return None;
    }
    if !(pos < blen && 0x30 <= b[pos] && b[pos] <= 0x39) {
        return None;
    }
    match x_digits(b, pos, 0, fuel - 1) {
        Some((n, p2)) => {
            if p2 < blen && b[p2] == 0x3A && (n as u128) <= (blen as u128) - (p2 as u128) - 1 {
                let start = p2 + 1;
                let end = start + (n as usize);
                let mut content: Vec<u8> = Vec::new();
                let mut i: usize = start;
                while i < end
                    invariant
                        start <= i <= end,
                        end <= b@.len(),
                        content@ == b@.subrange(start as int, i as int),
                    decreases end - i,
                {
                    content.push(b[i]);
                    i = i + 1;
                    proof {
                        assert(content@ =~= b@.subrange(start as int, i as int));
                    }
                }
                Some((content, end))
            } else {
                None
            }
        },
        None => None,
    }
}

fn x_int(b: &Vec<u8>, pos: usize, fuel: usize) -> (r: Option<(i64, usize)>)
    requires
        pos <= b@.len(),
    ensures
        r is Some ==> sp_int(b@, pos as int, fuel as nat) == Some(
            (r->Some_0.0 as int, r->Some_0.1 as int),
        ) && pos <= r->Some_0.1 <= b@.len(),
        r is None ==> sp_int(b@, pos as int, fuel as nat) is None,
    decreases fuel,
{
    let blen = b.len();
    if fuel == 0 {
        return None;
    }
    if !(pos < blen && b[pos] == 0x69) {
        return None;
    }
    let neg = pos + 1 < blen && b[pos + 1] == 0x2D;
    let p1 = if neg {
        pos + 2
    } else {
        pos + 1
    };
    if !(p1 < blen && 0x30 <= b[p1] && b[p1] <= 0x39) {
        return None;
    }
    match x_digits(b, p1, 0, fuel - 1) {
        Some((n, p2)) => {
            if p2 < blen && b[p2] == 0x65 {
                let v = if neg {
                    -n
                } else {
                    n
                };
                Some((v, p2 + 1))
            } else {
                None
            }
        },
        None => None,
    }
}

fn x_skip(b: &Vec<u8>, pos: usize, fuel: usize) -> (r: Option<usize>)
    requires
        pos <= b@.len(),
    ensures
        r is Some ==> sp_skip(b@, pos as int, fuel as nat) == Some(r->Some_0 as int) && pos <= r->Some_0
            <= b@.len(),
        r is None ==> sp_skip(b@, pos as int, fuel as nat) is None,
    decreases fuel,
{
    let blen = b.len();
    if fuel == 0 || pos >= blen {
        None
    } else if b[pos] == 0x69 {
        match x_int(b, pos, fuel - 1) {
            Some((_v, e)) => Some(e),
            None => None,
        }
    } else if 0x30 <= b[pos] && b[pos] <= 0x39 {
        match x_bstr(b, pos, fuel - 1) {
            Some((_s, e)) => Some(e),
            None => None,
        }
    } else if b[pos] == 0x6C {
        x_skip_items(b, pos + 1, fuel - 1)
    } else if b[pos] == 0x64 {
        x_skip_pairs(b, pos + 1, fuel - 1)
    } else {
        None
    }
}

fn x_skip_items(b: &Vec<u8>, pos: usize, fuel: usize) -> (r: Option<usize>)
    requires
        pos <= b@.len(),
    ensures
        r is Some ==> sp_skip_items(b@, pos as int, fuel as nat) == Some(r->Some_0 as int) && pos
            <= r->Some_0 <= b@.len(),
        r is None ==> sp_skip_items(b@, pos as int, fuel as nat) is None,
    decreases fuel,
{
    let blen = b.len();
    if fuel == 0 || pos >= blen {
        None
    } else if b[pos] == 0x65 {
        Some(pos + 1)
    } else {
        match x_skip(b, pos, fuel - 1) {
            Some(e) => x_skip_items(b, e, fuel - 1),
            None => None,
        }
    }
}

fn x_skip_pairs(b: &Vec<u8>, pos: usize, fuel: usize) -> (r: Option<usize>)
    requires
        pos <= b@.len(),
    ensures
        r is Some ==> sp_skip_pairs(b@, pos as int, fuel as nat) == Some(r->Some_0 as int) && pos
            <= r->Some_0 <= b@.len(),
        r is None ==> sp_skip_pairs(b@, pos as int, fuel as nat) is None,
    decreases fuel,
{
    let blen = b.len();
    if fuel == 0 || pos >= blen {
        None
    } else if b[pos] == 0x65 {
        Some(pos + 1)
    } else {
        match x_bstr(b, pos, fuel - 1) {
            Some((_k, e1)) => match x_skip(b, e1, fuel - 1) {
                Some(e2) => x_skip_pairs(b, e2, fuel - 1),
                None => None,
            },
            None => None,
        }
    }
}

fn is_key_complete(k: &Vec<u8>) -> (r: bool)
    ensures
        r == (k@ == key_complete()),
{
    let r = k.len() == 8 && k[0] == 0x63 && k[1] == 0x6F && k[2] == 0x6D && k[3] == 0x70 && k[4]
        == 0x6C && k[5] == 0x65 && k[6] == 0x74 && k[7] == 0x65;
    proof {
        if r {
            assert(k@ =~= key_complete());
        }
    }
    r
}

fn is_key_incomplete(k: &Vec<u8>) -> (r: bool)
    ensures
        r == (k@ == key_incomplete()),
{
    let r = k.len() == 10 && k[0] == 0x69 && k[1] == 0x6E && k[2] == 0x63 && k[3] == 0x6F && k[4]
        == 0x6D && k[5] == 0x70 && k[6] == 0x6C && k[7] == 0x65 && k[8] == 0x74 && k[9] == 0x65;
    proof {
        if r {
            assert(k@ =~= key_incomplete());
        }
    }
    r
}

fn is_key_files(k: &Vec<u8>) -> (r: bool)
    ensures
        r == (k@ == key_files()),
{
    let r = k.len() == 5 && k[0] == 0x66 && k[1] == 0x69 && k[2] == 0x6C && k[3] == 0x65 && k[4]
        == 0x73;
    proof {
        if r {
            assert(k@ =~= key_files());
        }
    }
    r
}

pub open spec fn triple_views(ts: Seq<(Vec<u8>, i64, i64)>) -> Seq<(Seq<u8>, int, int)> {
    ts.map_values(|t: (Vec<u8>, i64, i64)| (t.0@, t.1 as int, t.2 as int))
}

fn x_stats_pairs(b: &Vec<u8>, pos: usize, c: Option<i64>, ic: Option<i64>, fuel: usize) -> (r:
    Option<(i64, i64, usize)>)
    requires
        pos <= b@.len(),
    ensures
        r is Some ==> sp_stats_pairs(
            b@,
            pos as int,
            match c {
                Some(v) => Some(v as int),
                None => None,
            },
            match ic {
                Some(v) => Some(v as int),
                None => None,
            },
            fuel as nat,
        ) == Some((r->Some_0.0 as int, r->Some_0.1 as int, r->Some_0.2 as int)) && pos
            <= r->Some_0.2 <= b@.len(),
        r is None ==> sp_stats_pairs(
            b@,
            pos as int,
            match c {
                Some(v) => Some(v as int),
                None => None,
            },
            match ic {
                Some(v) => Some(v as int),
                None => None,
            },
            fuel as nat,
        ) is None,
    decreases fuel,
{
    let blen = b.len();
    if fuel == 0 || pos >= blen {
        return None;
    }
    if b[pos] == 0x65 {
        return match (c, ic) {
            (Some(cv), Some(iv)) => Some((cv, iv, pos + 1)),
            _ => None,
        };
    }
    match x_bstr(b, pos, fuel - 1) {
        Some((key, e1)) => {
            if is_key_complete(&key) {
                match x_int(b, e1, fuel - 1) {
                    Some((v, e2)) => x_stats_pairs(b, e2, Some(v), ic, fuel - 1),
                    None => None,
                }
            } else if is_key_incomplete(&key) {
                match x_int(b, e1, fuel - 1) {
                    Some((v, e2)) => x_stats_pairs(b, e2, c, Some(v), fuel - 1),
                    None => None,
                }
            } else {
                match x_skip(b, e1, fuel - 1) {
                    Some(e2) => x_stats_pairs(b, e2, c, ic, fuel - 1),
                    None => None,
                }
            }
        },
        None => None,
    }
}

fn x_files_pairs(b: &Vec<u8>, pos: usize, acc: Vec<(Vec<u8>, i64, i64)>, fuel: usize) -> (r:
    Option<(Vec<(Vec<u8>, i64, i64)>, usize)>)
    requires
        pos <= b@.len(),
    ensures
        r is Some ==> sp_files_pairs(b@, pos as int, triple_views(acc@), fuel as nat) == Some(
            (triple_views(r->Some_0.0@), r->Some_0.1 as int),
        ) && pos <= r->Some_0.1 <= b@.len(),
        r is None ==> sp_files_pairs(b@, pos as int, triple_views(acc@), fuel as nat) is None,
    decreases fuel,
{
    let blen = b.len();
    if fuel == 0 || pos >= blen {
        return None;
    }
    if b[pos] == 0x65 {
        return Some((acc, pos + 1));
    }
    match x_bstr(b, pos, fuel - 1) {
        Some((key, e1)) => {
            if e1 < blen && b[e1] == 0x64 {
                match x_stats_pairs(b, e1 + 1, None, None, fuel - 1) {
                    Some((cv, iv, e2)) => {
                        let ghost accv = triple_views(acc@);
                        let ghost keyv = key@;
                        let mut acc2 = acc;
                        acc2.push((key, cv, iv));
                        proof {
                            assert(triple_views(acc2@) =~= accv.push(
                                (keyv, cv as int, iv as int),
                            ));
                        }
                        x_files_pairs(b, e2, acc2, fuel - 1)
                    },
                    None => None,
                }
            } else {
                None
            }
        },
        None => None,
    }
}

fn x_top_pairs(b: &Vec<u8>, pos: usize, acc: Vec<(Vec<u8>, i64, i64)>, fuel: usize) -> (r: Option<
    Vec<(Vec<u8>, i64, i64)>,
>)
    requires
        pos <= b@.len(),
    ensures
        r is Some ==> sp_top_pairs(b@, pos as int, triple_views(acc@), fuel as nat) == Some(
            triple_views(r->Some_0@),
        ),
        r is None ==> sp_top_pairs(b@, pos as int, triple_views(acc@), fuel as nat) is None,
    decreases fuel,
{
    let blen = b.len();
    if fuel == 0 || pos >= blen {
        return None;
    }
    if b[pos] == 0x65 {
        return Some(acc);
    }
    match x_bstr(b, pos, fuel - 1) {
        Some((key, e1)) => {
            if is_key_files(&key) {
                if e1 < blen && b[e1] == 0x64 {
                    match x_files_pairs(b, e1 + 1, acc, fuel - 1) {
                        Some((acc2, e2)) => x_top_pairs(b, e2, acc2, fuel - 1),
                        None => None,
                    }
                } else {
                    None
                }
            } else {
                match x_skip(b, e1, fuel - 1) {
                    Some(e2) => x_top_pairs(b, e2, acc, fuel - 1),
                    None => None,
                }
            }
        },
        None => None,
    }
}

/// Reads a bencoded scrape response: the hash-keyed `(complete,
/// incomplete)` counts of its `files` dictionary, in response order.
/// Returns `None` exactly when the specification walk rejects the bytes.
pub fn parse_scrape_files(b: &Vec<u8>) -> (r: Option<Vec<(Vec<u8>, i64, i64)>>)
    requires
        b@.len() < 0x10000000,
    ensures
        r is Some <==> spec_scrape_files(b@) is Some,
        r is Some ==> spec_scrape_files(b@) == Some(triple_views(r->Some_0@)),
{
    let blen = b.len();
    if !(blen > 0 && b[0] == 0x64) {
        return None;
    }
    let fuel = 3 * blen + 16;
    let acc: Vec<(Vec<u8>, i64, i64)> = Vec::new();
    proof {
        assert(triple_views(acc@) =~= Seq::<(Seq<u8>, int, int)>::empty());
    }
    x_top_pairs(b, 1, acc, fuel)
}

} // verus!
