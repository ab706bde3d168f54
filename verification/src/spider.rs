//! The spider ingest types: records handed over by the DHT-crawler
//! subprocess, and the values a record contributes to the store.

use vstd::prelude::*;
use crate::torrent::{size_mb_sum, size_mb_checked};

verus! {

/// One file of a discovered torrent, as the crawler reports it.
pub struct MagneticoDFile {
    pub size: i64,
    pub path: String,
}

/// One discovered torrent, as the crawler reports it: name, lowercase hex
/// info-hash, and its files.
pub struct MagneticoDTorrent {
    pub name: String,
    pub info_hash: String,
    pub files: Vec<MagneticoDFile>,
}

pub open spec fn file_sizes(files: Seq<MagneticoDFile>) -> Seq<i64> {
    files.map_values(|f: MagneticoDFile| f.size)
}

pub open spec fn file_paths(files: Seq<MagneticoDFile>) -> Seq<Seq<char>> {
    files.map_values(|f: MagneticoDFile| f.path@)
}

/// The size in whole megabytes and the path list a spider record
/// contributes to its store row. Returns `None` exactly when a reported
/// length is negative or the total does not fit the size column.
pub fn spider_insert_values(files: &Vec<MagneticoDFile>) -> (r: Option<(i32, Vec<String>)>)
    ensures
        r is Some <==> ((forall|i: int| 0 <= i < files@.len() ==> file_sizes(files@)[i] >= 0)
            && size_mb_sum(file_sizes(files@)) <= i32::MAX as int),
        r is Some ==> r->Some_0.0 as int == size_mb_sum(file_sizes(files@)),
        r is Some ==> r->Some_0.1@.map_values(|p: String| p@) == file_paths(files@),
{
    let n = files.len();
    let mut sizes: Vec<i64> = Vec::new();
    let mut paths: Vec<String> = Vec::new();
    let mut i: usize = 0;
    while i < n
        invariant
            n == files@.len(),
            i <= n,
            sizes@ == file_sizes(files@).subrange(0, i as int),
            paths@.len() == i,
            forall|k: int| 0 <= k < i ==> (#[trigger] paths@[k])@ == files@[k].path@,
        decreases n - i,
    {
        sizes.push(files[i].size);
        paths.push(files[i].path.clone());
        i = i + 1;
        proof {
            assert(sizes@ =~= file_sizes(files@).subrange(0, i as int));
        }
    }
    proof {
        assert(sizes@ =~= file_sizes(files@));
    }
    match size_mb_checked(&sizes) {
        Some(size) => {
            proof {
                assert(paths@.map_values(|p: String| p@) =~= file_paths(files@));
            }
            Some((size, paths))
        },
        None => None,
    }
}

/// The spider subprocess: the crawler binary resolved next to the working
/// directory. Spawning and reading it happen outside the library.
pub struct Spider {
    pub path: String,
}

impl Spider {
    /// A spider whose binary lives at `<base_dir>/magneticod`.
    pub fn new(base_dir: String) -> (r: Spider)
        ensures
            r.path@ == base_dir@ + "/magneticod"@,
    {
        let mut path = base_dir;
        path.append("/magneticod");
        Spider { path }
    }

    /// The argument that makes the crawler stream records to stdout.
    pub fn database_arg(&self) -> (r: &'static str)
        ensures
            r@ == "--database=stdout://"@,
    {
        "--database=stdout://"
    }
}

} // verus!
