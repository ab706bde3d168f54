//! The Torznab surface: the capabilities document and the RSS 2.0 search
//! feed. Instants are rendered in the library's timestamp form, unix
//! seconds; text and attribute values are XML-escaped.

use vstd::prelude::*;
use crate::torrent::{Model, ModelV};
use crate::store::views_of;
use crate::text::{upper_seq, dec_str, dec_digits, str_chars, chars_string, to_upper, i64_to_dec, u64_to_dec};

verus! {

/// The query parameters of the Torznab endpoint.
pub struct TorznabQuery {
    pub t: Option<String>,
    pub q: Option<String>,
    pub offset: Option<u64>,
    pub limit: Option<u64>,
}

/// The XML escape of one character.
pub open spec fn esc_char(c: char) -> Seq<char> {
    if c == '&' {
        seq!['&', 'a', 'm', 'p', ';']
    } else if c == '<' {
        seq!['&', 'l', 't', ';']
    } else if c == '>' {
        seq!['&', 'g', 't', ';']
    } else if c == '\'' {
        seq!['&', 'a', 'p', 'o', 's', ';']
    } else if c == '"' {
        seq!['&', 'q', 'u', 'o', 't', ';']
    } else {
        seq![c]
    }
}

/// The string with every markup character escaped.
pub open spec fn xml_escaped(s: Seq<char>) -> Seq<char>
    decreases s.len(),
{
    if s.len() == 0 {
        Seq::empty()
    } else {
        xml_escaped(s.drop_last()) + esc_char(s.last())
    }
}

/// Escapes text for an XML text or attribute position.
pub fn xml_escape_str(s: &str) -> (r: String)
    ensures
        r@ == xml_escaped(s@),
{
    let cs = str_chars(s);
    let mut out: Vec<char> = Vec::new();
    let mut i: usize = 0;
    while i < cs.len()
        invariant
            cs@ == s@,
            i <= cs@.len(),
            out@ == xml_escaped(s@.subrange(0, i as int)),
        decreases cs@.len() - i,
    {
        proof {
            assert(s@.subrange(0, i as int + 1).drop_last() =~= s@.subrange(0, i as int));
        }
        let c = cs[i];
        if c == '&' {
            out.push('&');
            out.push('a');
            out.push('m');
            out.push('p');
            out.push(';');
        } else if c == '<' {
            out.push('&');
            out.push('l');
            out.push('t');
            out.push(';');
        } else if c == '>' {
            out.push('&');
            out.push('g');
            out.push('t');
            out.push(';');
        } else if c == '\'' {
            out.push('&');
            out.push('a');
            out.push('p');
            out.push('o');
            out.push('s');
            out.push(';');
        } else if c == '"' {
            out.push('&');
            out.push('q');
            out.push('u');
            out.push('o');
            out.push('t');
            out.push(';');
        } else {
            out.push(c);
        }
        i = i + 1;
        proof {
            assert(out@ =~= xml_escaped(s@.subrange(0, i as int)));
        }
    }
    proof {
        assert(s@.subrange(0, s@.len() as int) =~= s@);
    }
    chars_string(&out)
}

/// The fixed capabilities document: server identity, paging limits, the
/// supported search parameter, and the fixed category tree.
pub open spec fn caps_xml() -> Seq<char> {
    "<?xml version=\"1.0\" encoding=\"UTF-8\"?><caps><server version=\"1.0\" title=\"Oxidized\"/><limits max=\"100\" default=\"50\"/><searching><search available=\"yes\" supportedParams=\"q\"/></searching><categories><category id=\"8000\" name=\"Other\" description=\"Other\"><subcat id=\"8010\" name=\"Other/Misc\"/></category><category id=\"2000\" name=\"Movies\" description=\"Movies\"/><category id=\"5000\" name=\"TV\" description=\"TV\"><subcat id=\"5040\" name=\"TV/HD\"/><subcat id=\"5070\" name=\"TV/SD\"/></category></categories></caps>"@
}

/// The `t=caps` response.
pub fn generate_caps_response() -> (r: String)
    ensures
        r@ == caps_xml(),
{
    String::from_str(
        "<?xml version=\"1.0\" encoding=\"UTF-8\"?><caps><server version=\"1.0\" title=\"Oxidized\"/><limits max=\"100\" default=\"50\"/><searching><search available=\"yes\" supportedParams=\"q\"/></searching><categories><category id=\"8000\" name=\"Other\" description=\"Other\"><subcat id=\"8010\" name=\"Other/Misc\"/></category><category id=\"2000\" name=\"Movies\" description=\"Movies\"/><category id=\"5000\" name=\"TV\" description=\"TV\"><subcat id=\"5040\" name=\"TV/HD\"/><subcat id=\"5070\" name=\"TV/SD\"/></category></categories></caps>",
    )
}

/// One feed item: the torrent's description, links, swarm counts, and its
/// Torznab attributes, the category ids being the fixed leaf set.
pub open spec fn item_xml(t: ModelV) -> Seq<char> {
    "<item><title>"@ + xml_escaped(t.name->0) + "</title><link>https://itorrents.org/torrent/"@
        + xml_escaped(t.info_hash) + ".torrent</link><description>Total Size: "@ + dec_str(t.size)
        + " MB</description><pubDate>"@ + dec_str(t.added_at) + "</pubDate><size>"@ + dec_str(
        t.size * 1000000,
    ) + "</size><infohash>"@ + xml_escaped(t.info_hash)
        + "</infohash><category>Other</category><seeders>"@ + dec_str(t.seeders)
        + "</seeders><leechers>"@ + dec_str(t.seeders + t.leechers)
        + "</leechers><magneturl>magnet:?xt=urn:btih:"@ + xml_escaped(upper_seq(t.info_hash))
        + "</magneturl><enclosure type=\"application/x-bittorrent\" url=\"https://itorrents.org/torrent/"@
        + xml_escaped(t.info_hash) + ".torrent\"/><torznab:attr name=\"files\" value=\""@
        + dec_str(t.files.len() as int) + "\"/><torznab:attr name=\"size\" value=\""@ + dec_str(
        t.size * 1000000,
    ) + "\"/><torznab:attr name=\"infohash\" value=\""@ + xml_escaped(t.info_hash)
        + "\"/><torznab:attr name=\"magneturl\" value=\"magnet:?xt=urn:btih:"@ + xml_escaped(
        upper_seq(t.info_hash),
    ) + "\"/><torznab:attr name=\"seeders\" value=\""@ + dec_str(t.seeders)
        + "\"/><torznab:attr name=\"peers\" value=\""@ + dec_str(t.seeders + t.leechers)
        + "\"/><torznab:attr name=\"category\" value=\"8010\"/><torznab:attr name=\"category\" value=\"2000\"/><torznab:attr name=\"category\" value=\"5040\"/><torznab:attr name=\"category\" value=\"5070\"/></item>"@
}

/// The feed head up to the first item.
pub open spec fn feed_head(origin: Seq<char>) -> Seq<char> {
    "<?xml version=\"1.0\" encoding=\"utf-8\"?><rss version=\"2.0\" xmlns:atom=\"http://www.w3.org/2005/Atom\" xmlns:torznab=\"http://torznab.com/schemas/2015/feed\"><channel><title>Latest releases feed</title><link>http://"@
        + xml_escaped(origin)
        + "/</link><description>Latest releases feed</description><language>en-gb</language><ttl>30</ttl>"@
}

pub open spec fn items_xml(ts: Seq<ModelV>) -> Seq<char>
    decreases ts.len(),
{
    if ts.len() == 0 {
        Seq::empty()
    } else {
        items_xml(ts.drop_last()) + item_xml(ts.last())
    }
}

/// The whole `t=search` feed for a result page.
pub open spec fn search_xml(origin: Seq<char>, ts: Seq<ModelV>) -> Seq<char> {
    feed_head(origin) + items_xml(ts) + "</channel></rss>"@
}

/// Renders one item.
#[verifier::rlimit(100)]
fn render_item(t: &Model) -> (r: String)
    requires
        t.name is Some,
    ensures
        r@ == item_xml(t@),
{
    let name: &String = match &t.name {
        Some(n) => n,
        None => {
            proof {
                assert(false);
            }
            unreached()
        },
    };
    let hash_esc = xml_escape_str(t.info_hash.as_str());
    let upper = to_upper(t.info_hash.as_str());
    let upper_esc = xml_escape_str(upper.as_str());
    let size_str = i64_to_dec(t.size as i64);
    let size_bytes = i64_to_dec((t.size as i64) * 1000000);
    let added = i64_to_dec(t.added_at);
    let seeders = i64_to_dec(t.seeders as i64);
    let peers = i64_to_dec((t.seeders as i64) + (t.leechers as i64));
    let files_count = u64_to_dec(t.files.len() as u64);
    let mut out = String::new();
    out.append("<item><title>");
    let name_esc = xml_escape_str(name.as_str());
    out.append(name_esc.as_str());
    out.append("</title><link>https://itorrents.org/torrent/");
    out.append(hash_esc.as_str());
    out.append(".torrent</link><description>Total Size: ");
    out.append(size_str.as_str());
    out.append(" MB</description><pubDate>");
    out.append(added.as_str());
    out.append("</pubDate><size>");
    out.append(size_bytes.as_str());
    out.append("</size><infohash>");
    out.append(hash_esc.as_str());
    out.append("</infohash><category>Other</category><seeders>");
    out.append(seeders.as_str());
    out.append("</seeders><leechers>");
    out.append(peers.as_str());
    out.append("</leechers><magneturl>magnet:?xt=urn:btih:");
    out.append(upper_esc.as_str());
    out.append("</magneturl><enclosure type=\"application/x-bittorrent\" url=\"https://itorrents.org/torrent/");
    out.append(hash_esc.as_str());
    out.append(".torrent\"/><torznab:attr name=\"files\" value=\"");
    out.append(files_count.as_str());
    out.append("\"/><torznab:attr name=\"size\" value=\"");
    out.append(size_bytes.as_str());
    out.append("\"/><torznab:attr name=\"infohash\" value=\"");
    out.append(hash_esc.as_str());
    out.append("\"/><torznab:attr name=\"magneturl\" value=\"magnet:?xt=urn:btih:");
    out.append(upper_esc.as_str());
    out.append("\"/><torznab:attr name=\"seeders\" value=\"");
    out.append(seeders.as_str());
    out.append("\"/><torznab:attr name=\"peers\" value=\"");
    out.append(peers.as_str());
    out.append("\"/><torznab:attr name=\"category\" value=\"8010\"/><torznab:attr name=\"category\" value=\"2000\"/><torznab:attr name=\"category\" value=\"5040\"/><torznab:attr name=\"category\" value=\"5070\"/></item>");
    proof {
        assert(dec_str(t@.files.len() as int) == dec_digits(t.files@.len() as nat));
        assert(out@ =~= item_xml(t@));
    }
    out
}

/// The `t=search` response for a result page; every listed torrent must
/// carry a resolved name.
pub fn generate_search_response(origin: &str, torrents: &Vec<Model>) -> (r: String)
    requires
        forall|k: int| 0 <= k < torrents@.len() ==> (#[trigger] torrents@[k])@.name is Some,
    ensures
        r@ == search_xml(origin@, views_of(torrents@)),
{
    let mut out = String::new();
    out.append("<?xml version=\"1.0\" encoding=\"utf-8\"?><rss version=\"2.0\" xmlns:atom=\"http://www.w3.org/2005/Atom\" xmlns:torznab=\"http://torznab.com/schemas/2015/feed\"><channel><title>Latest releases feed</title><link>http://");
    let origin_esc = xml_escape_str(origin);
    out.append(origin_esc.as_str());
    out.append("/</link><description>Latest releases feed</description><language>en-gb</language><ttl>30</ttl>");
    proof {
        assert(out@ =~= feed_head(origin@));
    }
    let n = torrents.len();
    let mut i: usize = 0;
    while i < n
        invariant
            n == torrents@.len(),
            i <= n,
            forall|k: int| 0 <= k < n ==> (#[trigger] torrents@[k])@.name is Some,
            out@ == feed_head(origin@) + items_xml(views_of(torrents@).subrange(0, i as int)),
        decreases n - i,
    {
        proof {
            assert(views_of(torrents@).subrange(0, i as int + 1).drop_last() =~= views_of(
                torrents@,
            ).subrange(0, i as int));
            assert(views_of(torrents@).subrange(0, i as int + 1).last() == torrents@[i as int]@);
        }
        let item = render_item(&torrents[i]);
        out.append(item.as_str());
        i = i + 1;
        proof {
            assert(out@ =~= feed_head(origin@) + items_xml(
                views_of(torrents@).subrange(0, i as int),
            ));
        }
    }
    out.append("</channel></rss>");
    proof {
        assert(views_of(torrents@).subrange(0, n as int) =~= views_of(torrents@));
        assert(out@ =~= search_xml(origin@, views_of(torrents@)));
    }
    out
}

} // verus!
