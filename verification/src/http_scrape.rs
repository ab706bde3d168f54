//! The HTTP scrape request line: raw 20-byte info-hashes are form-url-
//! encoded and appended to `{origin}/scrape` as repeated `info_hash`
//! parameters.

use vstd::prelude::*;
use crate::hexstr::hex_digit_upper;
use crate::text::chars_string;

verus! {

/// A byte that travels unencoded in a form-urlencoded value.
pub open spec fn is_unreserved(b: u8) -> bool {
    (0x41 <= b && b <= 0x5A) || (0x61 <= b && b <= 0x7A) || (0x30 <= b && b <= 0x39) || b == 0x2A
        || b == 0x2D || b == 0x2E || b == 0x5F
}

/// The form-urlencoded rendering of one byte: a space becomes `+`, an
/// unreserved byte stands for itself, anything else becomes `%XX` with
/// uppercase hex.
pub open spec fn pct_char(b: u8) -> Seq<char> {
    if b == 0x20 {
        seq!['+']
    } else if is_unreserved(b) {
        seq![b as char]
    } else {
        seq!['%', hex_digit_upper(b as int / 16), hex_digit_upper(b as int % 16)]
    }
}

/// The form-urlencoded rendering of a byte string.
pub open spec fn form_urlencoded(bs: Seq<u8>) -> Seq<char>
    decreases bs.len(),
{
    if bs.len() == 0 {
        Seq::empty()
    } else {
        form_urlencoded(bs.drop_last()) + pct_char(bs.last())
    }
}

/// Form-url-encodes a byte string.
pub fn percent_encode(bs: &Vec<u8>) -> (r: String)
    ensures
        r@ == form_urlencoded(bs@),
{
    let mut out: Vec<char> = Vec::new();
    let mut i: usize = 0;
    while i < bs.len()
        invariant
            i <= bs@.len(),
            out@ == form_urlencoded(bs@.subrange(0, i as int)),
        decreases bs@.len() - i,
    {
        proof {
            assert(bs@.subrange(0, i as int + 1).drop_last() =~= bs@.subrange(0, i as int));
        }
        let b = bs[i];
        if b == 0x20 {
            out.push('+');
        } else if (0x41 <= b && b <= 0x5A) || (0x61 <= b && b <= 0x7A) || (0x30 <= b && b <= 0x39)
            || b == 0x2A || b == 0x2D || b == 0x2E || b == 0x5F {
            out.push(b as char);
        } else {
            out.push('%');
            out.push(crate::hexstr::hex_digit_upper_char(b / 16));
            out.push(crate::hexstr::hex_digit_upper_char(b % 16));
        }
        i = i + 1;
        proof {
            assert(out@ =~= form_urlencoded(bs@.subrange(0, i as int)));
        }
    }
    proof {
        assert(bs@.subrange(0, bs@.len() as int) =~= bs@);
    }
    chars_string(&out)
}

/// The query string carrying each hash as an `info_hash` parameter, the
/// first introduced by `?` and the rest by `&`.
pub open spec fn scrape_query(hashes: Seq<Seq<u8>>) -> Seq<char>
    decreases hashes.len(),
{
    if hashes.len() == 0 {
        Seq::empty()
    } else {
        scrape_query(hashes.drop_last()) + (if hashes.len() == 1 {
            seq!['?']
        } else {
            seq!['&']
        }) + "info_hash="@ + form_urlencoded(hashes.last())
    }
}

/// The full scrape URL for a tracker origin and a batch of raw hashes.
pub open spec fn spec_scrape_url(origin: Seq<char>, hashes: Seq<Seq<u8>>) -> Seq<char> {
    origin + "/scrape"@ + scrape_query(hashes)
}

/// Builds the scrape URL the HTTP client requests.
pub fn build_scrape_url(origin: &str, hashes: &Vec<Vec<u8>>) -> (r: String)
    ensures
        r@ == spec_scrape_url(origin@, hashes@.map_values(|h: Vec<u8>| h@)),
{
    proof {
        reveal_strlit("?");
        reveal_strlit("&");
    }
    let ghost hv = hashes@.map_values(|h: Vec<u8>| h@);
    let mut out = String::from_str(origin);
    out.append("/scrape");
    proof {
        assert(hv.subrange(0, 0) =~= Seq::<Seq<u8>>::empty());
        assert(out@ =~= origin@ + "/scrape"@ + scrape_query(hv.subrange(0, 0)));
    }
    let mut i: usize = 0;
    while i < hashes.len()
        invariant
            hv == hashes@.map_values(|h: Vec<u8>| h@),
            i <= hashes@.len(),
            out@ == origin@ + "/scrape"@ + scrape_query(hv.subrange(0, i as int)),
        decreases hashes@.len() - i,
    {
        proof {
            reveal_strlit("?");
            reveal_strlit("&");
            assert(hv.subrange(0, i as int + 1).drop_last() =~= hv.subrange(0, i as int));
            assert(hv.subrange(0, i as int + 1).last() == hashes@[i as int]@);
        }
        if i == 0 {
            out.append("?");
        } else {
            out.append("&");
        }
        out.append("info_hash=");
        let enc = percent_encode(&hashes[i]);
        out.append(enc.as_str());
        i = i + 1;
        proof {
            assert(out@ =~= origin@ + "/scrape"@ + scrape_query(hv.subrange(0, i as int)));
        }
    }
    proof {
        assert(hv.subrange(0, hv.len() as int) =~= hv);
    }
    out
}

} // verus!
