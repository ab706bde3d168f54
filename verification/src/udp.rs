//! The BEP-15 UDP tracker wire format: building connect and scrape
//! requests and reading their responses. All integers on the wire are
//! big-endian; the connection and transaction ids are carried as raw
//! bytes and never interpreted.

use vstd::prelude::*;

verus! {

/// The protocol magic that opens every connect request.
pub open spec fn magic_bytes() -> Seq<u8> {
    seq![0x00u8, 0x00u8, 0x04u8, 0x17u8, 0x27u8, 0x10u8, 0x19u8, 0x80u8]
}

pub open spec fn action_connect() -> Seq<u8> {
    seq![0x00u8, 0x00u8, 0x00u8, 0x00u8]
}

pub open spec fn action_scrape() -> Seq<u8> {
    seq![0x00u8, 0x00u8, 0x00u8, 0x02u8]
}

/// The value of four big-endian bytes read as an unsigned number.
pub open spec fn be32_val(b: Seq<u8>) -> int {
    b[0] * 0x1000000 + b[1] * 0x10000 + b[2] * 0x100 + b[3]
}

/// The value of four big-endian bytes read as a two's-complement `i32`.
pub open spec fn i32_of_be(b: Seq<u8>) -> int {
    if be32_val(b) >= 0x80000000 {
        be32_val(b) - 0x100000000
    } else {
        be32_val(b)
    }
}

/// A 16-byte connect request: magic, action zero, transaction id.
pub open spec fn spec_connect_request(tid: Seq<u8>) -> Seq<u8> {
    magic_bytes() + action_connect() + tid
}

/// A scrape request: connection id, action two, transaction id, then the
/// raw 20-byte info-hashes in order.
pub open spec fn spec_scrape_request(
    connection_id: Seq<u8>,
    tid: Seq<u8>,
    hashes: Seq<Seq<u8>>,
) -> Seq<u8>
    decreases hashes.len(),
{
    if hashes.len() == 0 {
        connection_id + action_scrape() + tid
    } else {
        spec_scrape_request(connection_id, tid, hashes.drop_last()) + hashes.last()
    }
}

fn push_bytes(out: &mut Vec<u8>, b: &Vec<u8>)
    ensures
        final(out)@ == old(out)@ + b@,
{
    let mut i: usize = 0;
    while i < b.len()
        invariant
            i <= b@.len(),
            out@ == old(out)@ + b@.subrange(0, i as int),
        decreases b@.len() - i,
    {
        out.push(b[i]);
        i = i + 1;
        proof {
            assert(out@ =~= old(out)@ + b@.subrange(0, i as int));
        }
    }
    proof {
        assert(out@ =~= old(out)@ + b@);
    }
}

/// Builds the 16-byte connect request for a transaction id.
pub fn encode_connect_request(tid: &Vec<u8>) -> (r: Vec<u8>)
    requires
        tid@.len() == 4,
    ensures
        r@ == spec_connect_request(tid@),
        r@.len() == 16,
{
    let mut out: Vec<u8> = Vec::new();
    out.push(0x00);
    out.push(0x00);
    out.push(0x04);
    out.push(0x17);
    out.push(0x27);
    out.push(0x10);
    out.push(0x19);
    out.push(0x80);
    out.push(0x00);
    out.push(0x00);
    out.push(0x00);
    out.push(0x00);
    push_bytes(&mut out, tid);
    proof {
        assert(out@ =~= spec_connect_request(tid@));
    }
    out
}

/// Builds a scrape request for a connection id, transaction id and a batch
/// of raw 20-byte info-hashes.
pub fn encode_scrape_request(connection_id: &Vec<u8>, tid: &Vec<u8>, hashes: &Vec<Vec<u8>>) -> (r:
    Vec<u8>)
    requires
        connection_id@.len() == 8,
        tid@.len() == 4,
        forall|k: int| 0 <= k < hashes@.len() ==> (#[trigger] hashes@[k])@.len() == 20,
    ensures
        r@ == spec_scrape_request(
            connection_id@,
            tid@,
            hashes@.map_values(|h: Vec<u8>| h@),
        ),
        r@.len() == 16 + 20 * hashes@.len(),
{
    let ghost hv = hashes@.map_values(|h: Vec<u8>| h@);
    let mut out: Vec<u8> = Vec::new();
    push_bytes(&mut out, connection_id);
    out.push(0x00);
    out.push(0x00);
    out.push(0x00);
    out.push(0x02);
    push_bytes(&mut out, tid);
    proof {
        assert(hv.subrange(0, 0) =~= Seq::<Seq<u8>>::empty());
        assert(out@ =~= spec_scrape_request(connection_id@, tid@, hv.subrange(0, 0)));
    }
    let mut k: usize = 0;
    while k < hashes.len()
        invariant
            connection_id@.len() == 8,
            tid@.len() == 4,
            hv == hashes@.map_values(|h: Vec<u8>| h@),
            forall|j: int| 0 <= j < hashes@.len() ==> (#[trigger] hashes@[j])@.len() == 20,
            k <= hashes@.len(),
            out@ == spec_scrape_request(connection_id@, tid@, hv.subrange(0, k as int)),
            out@.len() == 16 + 20 * k,
        decreases hashes@.len() - k,
    {
        push_bytes(&mut out, &hashes[k]);
        k = k + 1;
        proof {
            assert(hv.subrange(0, k as int).drop_last() =~= hv.subrange(0, k as int - 1));
            assert(hv.subrange(0, k as int).last() == hashes@[k as int - 1]@);
        }
    }
    proof {
        assert(hv.subrange(0, hv.len() as int) =~= hv);
    }
    out
}

/// Whether a connect response is well-formed for this transaction id:
/// sixteen bytes or more, action zero, matching transaction id.
pub open spec fn connect_response_ok(b: Seq<u8>, tid: Seq<u8>) -> bool {
    b.len() >= 16 && b.subrange(0, 4) == action_connect() && b.subrange(4, 8) == tid
}

/// Reads a connect response, returning the 8-byte connection id exactly
/// when the response is well-formed.
pub fn parse_connect_response(b: &Vec<u8>, tid: &Vec<u8>) -> (r: Option<Vec<u8>>)
    requires
        tid@.len() == 4,
    ensures
        r is Some <==> connect_response_ok(b@, tid@),
        r is Some ==> r->Some_0@ == b@.subrange(8, 16),
{
    if b.len() < 16 {
        return None;
    }
    if !(b[0] == 0 && b[1] == 0 && b[2] == 0 && b[3] == 0) {
        proof {
            assert(b@.subrange(0, 4)[0] == b@[0]);
            assert(b@.subrange(0, 4)[1] == b@[1]);
            assert(b@.subrange(0, 4)[2] == b@[2]);
            assert(b@.subrange(0, 4)[3] == b@[3]);
            assert(action_connect()[0] == 0 && action_connect()[1] == 0 && action_connect()[2]
                == 0 && action_connect()[3] == 0);
        }
        return None;
    }
    if !(b[4] == tid[0] && b[5] == tid[1] && b[6] == tid[2] && b[7] == tid[3]) {
        proof {
            assert(b@.subrange(4, 8)[0] == b@[4]);
            assert(b@.subrange(4, 8)[1] == b@[5]);
            assert(b@.subrange(4, 8)[2] == b@[6]);
            assert(b@.subrange(4, 8)[3] == b@[7]);
        }
        return None;
    }
    proof {
        assert(b@.subrange(0, 4) =~= action_connect());
        assert(b@.subrange(4, 8) =~= tid@);
    }
    let mut cid: Vec<u8> = Vec::new();
    let mut i: usize = 8;
    while i < 16
        invariant
            b@.len() >= 16,
            8 <= i <= 16,
            cid@ == b@.subrange(8, i as int),
        decreases 16 - i,
    {
        cid.push(b[i]);
        i = i + 1;
        proof {
            assert(cid@ =~= b@.subrange(8, i as int));
        }
    }
    Some(cid)
}

/// Whether a scrape response is well-formed for this transaction id.
pub open spec fn scrape_response_ok(b: Seq<u8>, tid: Seq<u8>) -> bool {
    b.len() >= 8 && b.subrange(0, 4) == action_scrape() && b.subrange(4, 8) == tid
}

/// The number of complete 12-byte stat triples a scrape response carries.
pub open spec fn scrape_triple_count(b: Seq<u8>) -> int {
    (b.len() - 8) / 12
}

/// The `k`-th triple of a scrape response: seeders, completed, leechers.
pub open spec fn scrape_triple(b: Seq<u8>, k: int) -> (int, int, int) {
    (
        i32_of_be(b.subrange(8 + 12 * k, 12 + 12 * k)),
        i32_of_be(b.subrange(12 + 12 * k, 16 + 12 * k)),
        i32_of_be(b.subrange(16 + 12 * k, 20 + 12 * k)),
    )
}

/// Reads four big-endian bytes at `at` as an `i32`.
fn read_i32_be(b: &Vec<u8>, at: usize) -> (r: i32)
    requires
        at + 4 <= b@.len(),
    ensures
        r as int == i32_of_be(b@.subrange(at as int, at as int + 4)),
{
    let blen = b.len();
    let n: u32 = (b[at] as u32) * 0x1000000 + (b[at + 1] as u32) * 0x10000 + (b[at + 2] as u32)
        * 0x100 + (b[at + 3] as u32);
    let v: i64 = if n >= 0x80000000 {
        (n as i64) - 0x100000000
    } else {
        n as i64
    };
    proof {
        let s = b@.subrange(at as int, at as int + 4);
        assert(s[0] == b@[at as int]);
        assert(s[1] == b@[at as int + 1]);
        assert(s[2] == b@[at as int + 2]);
        assert(s[3] == b@[at as int + 3]);
    }
    v as i32
}

/// Reads a scrape response, returning the stat triples in request order
/// exactly when the response is well-formed.
pub fn parse_scrape_response(b: &Vec<u8>, tid: &Vec<u8>) -> (r: Option<Vec<(i32, i32, i32)>>)
    requires
        tid@.len() == 4,
    ensures
        r is Some <==> scrape_response_ok(b@, tid@),
        r is Some ==> ({
            let ts = r->Some_0@;
            &&& ts.len() == scrape_triple_count(b@)
            &&& forall|k: int|
                0 <= k < ts.len() ==> ((#[trigger] ts[k]).0 as int, ts[k].1 as int, ts[k].2 as int)
                    == scrape_triple(b@, k)
        }),
{
    if b.len() < 8 {
        return None;
    }
    if !(b[0] == 0 && b[1] == 0 && b[2] == 0 && b[3] == 2) {
        proof {
            assert(b@.subrange(0, 4)[0] == b@[0]);
            assert(b@.subrange(0, 4)[1] == b@[1]);
            assert(b@.subrange(0, 4)[2] == b@[2]);
            assert(b@.subrange(0, 4)[3] == b@[3]);
            assert(action_scrape()[0] == 0 && action_scrape()[1] == 0 && action_scrape()[2] == 0
                && action_scrape()[3] == 2);
        }
        return None;
    }
    if !(b[4] == tid[0] && b[5] == tid[1] && b[6] == tid[2] && b[7] == tid[3]) {
        proof {
            assert(b@.subrange(4, 8)[0] == b@[4]);
            assert(b@.subrange(4, 8)[1] == b@[5]);
            assert(b@.subrange(4, 8)[2] == b@[6]);
            assert(b@.subrange(4, 8)[3] == b@[7]);
        }
        return None;
    }
    proof {
        assert(b@.subrange(0, 4) =~= action_scrape());
        assert(b@.subrange(4, 8) =~= tid@);
    }
    let blen = b.len();
    let count = (blen - 8) / 12;
    let mut out: Vec<(i32, i32, i32)> = Vec::new();
    let mut k: usize = 0;
    while k < count
        invariant
            blen == b@.len(),
            b@.len() >= 8,
            count == (b@.len() - 8) / 12,
            k <= count,
            out@.len() == k,
            forall|j: int|
                0 <= j < k ==> ((#[trigger] out@[j]).0 as int, out@[j].1 as int, out@[j].2 as int)
                    == scrape_triple(b@, j),
        decreases count - k,
    {
        proof {
            assert(12 * (count as int) <= b@.len() - 8) by {
                vstd::arithmetic::div_mod::lemma_fundamental_div_mod(b@.len() - 8, 12);
            }
            assert(12 * (k as int + 1) <= 12 * (count as int)) by {
                vstd::arithmetic::mul::lemma_mul_inequality(k as int + 1, count as int, 12);
            }
        }
        let base = 8 + 12 * k;
        let s = read_i32_be(b, base);
        let c = read_i32_be(b, base + 4);
        let l = read_i32_be(b, base + 8);
        out.push((s, c, l));
        k = k + 1;
    }
    Some(out)
}

} // verus!
